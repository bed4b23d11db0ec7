use otdm::proxy::{compose_domain_name, proxy_domain_name};
use otdm::subdomain::SubdomainGenerator;
use std::collections::HashSet;

#[test]
fn first_names_count_up() {
    let mut g = SubdomainGenerator::new(proxy_domain_name());
    assert_eq!(g.generate_subdomain(), "aaaaa.otdm.dev");
    assert_eq!(g.generate_subdomain(), "aaaab.otdm.dev");
    assert_eq!(g.generate_subdomain(), "aaaac.otdm.dev");
}

#[test]
fn letters_then_digits_then_carry() {
    let mut g = SubdomainGenerator::new(compose_domain_name());
    let names: Vec<String> = (0..38).map(|_| g.generate_subdomain()).collect();
    assert_eq!(names[25], "aaaaz.otdma.net");
    assert_eq!(names[26], "aaaa0.otdma.net");
    assert_eq!(names[35], "aaaa9.otdma.net");
    assert_eq!(names[36], "aaaba.otdma.net");
    assert_eq!(names[37], "aaabb.otdma.net");
}

#[test]
fn generated_names_never_repeat() {
    let mut g = SubdomainGenerator::new("example.org");
    let mut seen = HashSet::new();
    for _ in 0..5000 {
        assert!(seen.insert(g.generate_subdomain()));
    }
}

#[test]
fn labels_increase_by_length_then_order() {
    let key = |name: &str| {
        let label = name.split('.').next().unwrap().to_string();
        let digits: Vec<usize> = label
            .chars()
            .map(|c| if c.is_ascii_lowercase() { c as usize - 'a' as usize } else { c as usize - '0' as usize + 26 })
            .collect();
        (digits.len(), digits)
    };
    let mut g = SubdomainGenerator::new("otdm.dev");
    let mut prev = key(&g.generate_subdomain());
    for _ in 0..3000 {
        let next = key(&g.generate_subdomain());
        assert!(next > prev);
        prev = next;
    }
}
