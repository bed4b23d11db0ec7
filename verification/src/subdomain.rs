//! Subdomain names handed out in order: a counter of base-36 digits, shown
//! with the characters `a..z0..9`, that moves to one more digit when it has
//! gone through every name of the current length.

use vstd::prelude::*;
use crate::text::{chars_of, string_of};

verus! {

/// The number of characters that a subdomain label is made of.
pub const CHARSET_LEN: usize = 36;

/// The number of digits that a fresh counter starts with.
pub const INITIAL_DIGITS: usize = 5;

/// The character that shows the digit `d`: `a..z` for 0..25, `0..9` for 26..35.
pub open spec fn charset_char(d: nat) -> char {
    if d < 26 {
        (97 + d) as char
    } else {
        (48 + (d - 26)) as char
    }
}

/// Whether every digit of `ds` is below the base, and there is at least one.
pub open spec fn valid_digits(ds: Seq<usize>) -> bool {
    &&& ds.len() > 0
    &&& forall|i: int| 0 <= i < ds.len() ==> #[trigger] ds[i] < CHARSET_LEN
}

/// The label that the digits `ds` show.
pub open spec fn label(ds: Seq<usize>) -> Seq<char> {
    Seq::new(ds.len(), |i: int| charset_char(ds[i] as nat))
}

/// The full name for the digits `ds` under `domain`: the label, a dot, the domain.
pub open spec fn subdomain_name(ds: Seq<usize>, domain: Seq<char>) -> Seq<char> {
    label(ds) + seq!['.'] + domain
}

/// The digits after one step: the last digit goes up by one, carrying to the
/// left; when every digit carries, all become 0 and a new leading 0 is added.
pub open spec fn incr(ds: Seq<usize>) -> Seq<usize>
    decreases ds.len(),
{
    if ds.len() == 0 {
        seq![0usize]
    } else if ds.last() + 1 < CHARSET_LEN {
        ds.drop_last().push((ds.last() + 1) as usize)
    } else {
        incr(ds.drop_last()).push(0usize)
    }
}

/// The digits after `k` steps.
pub open spec fn iterate(ds: Seq<usize>, k: nat) -> Seq<usize>
    decreases k,
{
    if k == 0 {
        ds
    } else {
        incr(iterate(ds, (k - 1) as nat))
    }
}

/// The number that the digits `ds` stand for in base 36.
pub open spec fn num(ds: Seq<usize>) -> nat
    decreases ds.len(),
{
    if ds.len() == 0 {
        0
    } else {
        num(ds.drop_last()) * 36 + ds.last() as nat
    }
}

/// Whether `a` comes before `b` when shorter counters come first and counters
/// of one length are ordered by their number.
pub open spec fn before(a: Seq<usize>, b: Seq<usize>) -> bool {
    a.len() < b.len() || (a.len() == b.len() && num(a) < num(b))
}

/// A counter of base-36 digits that hands out subdomain names under one domain.
pub struct SubdomainGenerator {
    counter: Vec<usize>,
    domain: Vec<char>,
}

impl View for SubdomainGenerator {
    type V = (Seq<usize>, Seq<char>);

    /// The digits of the counter and the domain.
    closed spec fn view(&self) -> (Seq<usize>, Seq<char>) {
        (self.counter@, self.domain@)
    }
}

/// The character that shows the digit `d`.
fn charset_char_of(d: usize) -> (c: char)
    requires
        d < CHARSET_LEN,
    ensures
        c == charset_char(d as nat),
{
    if d < 26 {
        let b: u8 = 97u8 + (d as u8);
        b as char
    } else {
        let b: u8 = 48u8 + ((d - 26) as u8);
        b as char
    }
}

proof fn lemma_incr_valid(ds: Seq<usize>)
    requires
        forall|i: int| 0 <= i < ds.len() ==> #[trigger] ds[i] < CHARSET_LEN,
    ensures
        valid_digits(incr(ds)),
        incr(ds).len() >= ds.len(),
    decreases ds.len(),
{
    if ds.len() > 0 && ds.last() + 1 >= CHARSET_LEN {
        lemma_incr_valid(ds.drop_last());
    }
}

proof fn lemma_incr_carry(a: Seq<usize>, k: nat)
    requires
        k <= a.len(),
        forall|i: int| a.len() - k <= i < a.len() ==> #[trigger] a[i] == CHARSET_LEN - 1,
    ensures
        incr(a) == incr(a.take(a.len() - k)) + Seq::new(k, |i: int| 0usize),
    decreases k,
{
    if k == 0 {
        assert(a.take(a.len() as int) =~= a);
        assert(incr(a) + Seq::new(0, |i: int| 0usize) =~= incr(a));
    } else {
        lemma_incr_carry(a.drop_last(), (k - 1) as nat);
        assert(a.drop_last().take(a.drop_last().len() - (k - 1)) =~= a.take(a.len() - k));
        assert(incr(a.take(a.len() - k)) + Seq::new(k, |i: int| 0usize) =~= (incr(a.take(
            a.len() - k,
        )) + Seq::new((k - 1) as nat, |i: int| 0usize)).push(0usize));
    }
}

impl SubdomainGenerator {
    /// A generator under `domain` whose counter starts at five zero digits, so
    /// that the first name is `aaaaa.<domain>`.
    pub fn new(domain: &str) -> (g: SubdomainGenerator)
        ensures
            g@.0 == Seq::new(INITIAL_DIGITS as nat, |i: int| 0usize),
            g@.1 == domain@,
            g.wf(),
    {
        let mut counter: Vec<usize> = Vec::new();
        let mut i: usize = 0;
        while i < INITIAL_DIGITS
            invariant
                i <= INITIAL_DIGITS,
                counter@ == Seq::new(i as nat, |k: int| 0usize),
            decreases INITIAL_DIGITS - i,
        {
            counter.push(0);
            assert(counter@ =~= Seq::new((i + 1) as nat, |k: int| 0usize));
            i = i + 1;
        }
        SubdomainGenerator { counter, domain: chars_of(domain) }
    }

    /// Whether the counter holds at least one digit and every digit is below 36.
    pub closed spec fn wf(&self) -> bool {
        valid_digits(self.counter@)
    }

    /// The name for the current counter, then one step of the counter.
    pub fn generate_subdomain(&mut self) -> (name: String)
        requires
            old(self).wf(),
        ensures
            final(self).wf(),
            name@ == subdomain_name(old(self)@.0, old(self)@.1),
            final(self)@.0 == incr(old(self)@.0),
            final(self)@.1 == old(self)@.1,
    {
        let n = self.counter.len();
        let mut out: Vec<char> = Vec::new();
        let mut k: usize = 0;
        while k < n
            invariant
                k <= n == self.counter@.len(),
                valid_digits(self.counter@),
                out@ == label(self.counter@).take(k as int),
            decreases n - k,
        {
            let c = charset_char_of(self.counter[k]);
            out.push(c);
            assert(out@ =~= label(self.counter@).take(k + 1));
            k = k + 1;
        }
        assert(out@ =~= label(self.counter@));
        out.push('.');
        let mut j: usize = 0;
        let ghost lab = label(self.counter@);
        while j < self.domain.len()
            invariant
                j <= self.domain@.len(),
                out@ == lab + seq!['.'] + self.domain@.take(j as int),
            decreases self.domain.len() - j,
        {
            out.push(self.domain[j]);
            assert(out@ =~= lab + seq!['.'] + self.domain@.take(j + 1));
            j = j + 1;
        }
        assert(self.domain@.take(self.domain@.len() as int) =~= self.domain@);
        let name = string_of(out.as_slice());
        self.step();
        name
    }

    /// One step of the counter.
    fn step(&mut self)
        requires
            old(self).wf(),
        ensures
            final(self).wf(),
            final(self).counter@ == incr(old(self).counter@),
            final(self).domain == old(self).domain,
    {
        let ghost orig = self.counter@;
        proof {
            lemma_incr_valid(orig);
        }
        let mut i: usize = self.counter.len() - 1;
        assert(orig.take(orig.len() - 0) =~= orig);
        proof {
            lemma_incr_carry(orig, 0);
        }
        loop
            invariant
                i < self.counter@.len() == orig.len(),
                orig == old(self).counter@,
                orig.len() > 0,
                valid_digits(orig),
                valid_digits(self.counter@),
                self.domain == old(self).domain,
                self.counter@.take(i + 1) == orig.take(i + 1),
                forall|k: int| i < k < orig.len() ==> #[trigger] self.counter@[k] == 0,
                forall|k: int| i < k < orig.len() ==> #[trigger] orig[k] == CHARSET_LEN - 1,
                incr(orig) == incr(orig.take(i + 1)) + Seq::new(
                    (orig.len() - i - 1) as nat,
                    |k: int| 0usize,
                ),
            decreases i,
        {
            let d = self.counter[i];
            assert(d == orig[i as int]) by {
                assert(self.counter@.take(i + 1)[i as int] == self.counter@[i as int]);
            }
            if d + 1 < CHARSET_LEN {
                self.counter.set(i, d + 1);
                proof {
                    let t = orig.take(i + 1);
                    assert(t.drop_last() =~= orig.take(i as int));
                    assert(incr(t) == orig.take(i as int).push((d + 1) as usize));
                    assert(self.counter@ =~= incr(orig));
                }
                return;
            }
            self.counter.set(i, 0);
            proof {
                let t = orig.take(i + 1);
                assert(t.drop_last() =~= orig.take(i as int));
                assert(incr(t) == incr(orig.take(i as int)).push(0usize));
            }
            if i == 0 {
                self.counter.insert(0, 0);
                proof {
                    assert(orig.take(0) =~= Seq::<usize>::empty());
                    assert(self.counter@ =~= incr(orig));
                }
                return;
            }
            proof {
                assert(incr(orig.take(i as int)) + Seq::new((orig.len() - i) as nat, |k: int| 0usize)
                    =~= incr(orig.take(i + 1)) + Seq::new((orig.len() - i - 1) as nat, |k: int| 0usize));
                assert(self.counter@.take(i as int) =~= orig.take(i as int));
            }
            i = i - 1;
        }
    }
}


proof fn lemma_incr_before(ds: Seq<usize>)
    requires
        forall|i: int| 0 <= i < ds.len() ==> #[trigger] ds[i] < CHARSET_LEN,
    ensures
        incr(ds).len() > ds.len() || (incr(ds).len() == ds.len() && num(incr(ds)) == num(ds) + 1),
    decreases ds.len(),
{
    if ds.len() > 0 {
        let dl = ds.drop_last();
        if ds.last() + 1 < CHARSET_LEN {
            assert(incr(ds).drop_last() =~= dl);
        } else {
            lemma_incr_before(dl);
            assert(incr(ds).drop_last() =~= incr(dl));
        }
    }
}

proof fn lemma_iterate_valid(ds: Seq<usize>, k: nat)
    requires
        valid_digits(ds),
    ensures
        valid_digits(iterate(ds, k)),
    decreases k,
{
    if k > 0 {
        lemma_iterate_valid(ds, (k - 1) as nat);
        lemma_incr_valid(iterate(ds, (k - 1) as nat));
    }
}

proof fn lemma_iterate_before(ds: Seq<usize>, i: nat, j: nat)
    requires
        valid_digits(ds),
        i < j,
    ensures
        before(iterate(ds, i), iterate(ds, j)),
    decreases j,
{
    let prev = iterate(ds, (j - 1) as nat);
    lemma_iterate_valid(ds, (j - 1) as nat);
    lemma_incr_before(prev);
    if i < j - 1 {
        lemma_iterate_before(ds, i, (j - 1) as nat);
    }
}

proof fn lemma_label_injective(a: Seq<usize>, b: Seq<usize>)
    requires
        valid_digits(a),
        valid_digits(b),
        label(a) == label(b),
    ensures
        a == b,
{
    assert(a.len() == label(a).len());
    assert forall|i: int| 0 <= i < a.len() implies a[i] == b[i] by {
        assert(label(a)[i] == label(b)[i]);
        assert(label(a)[i] == charset_char(a[i] as nat));
        assert(label(b)[i] == charset_char(b[i] as nat));
        let x = a[i] as nat;
        let y = b[i] as nat;
        assert(x < 36 && y < 36);
        if x < 26 && y < 26 {
            assert(((97 + x) as char) as u32 == 97 + x);
            assert(((97 + y) as char) as u32 == 97 + y);
        } else if x >= 26 && y >= 26 {
            assert(((48 + (x - 26)) as char) as u32 == 48 + (x - 26));
            assert(((48 + (y - 26)) as char) as u32 == 48 + (y - 26));
        } else if x < 26 {
            assert(((97 + x) as char) as u32 == 97 + x);
            assert(((48 + (y - 26)) as char) as u32 == 48 + (y - 26));
        } else {
            assert(((48 + (x - 26)) as char) as u32 == 48 + (x - 26));
            assert(((97 + y) as char) as u32 == 97 + y);
        }
    }
    assert(a =~= b);
}

/// Later labels come after earlier ones: from any valid counter, the digits
/// after `j` steps are longer than those after `i < j` steps, or as long and
/// greater as a base-36 number, which for labels of one length is their
/// order character by character in `a..z0..9`.
pub proof fn generated_labels_increase(ds: Seq<usize>, i: nat, j: nat)
    requires
        valid_digits(ds),
        i < j,
    ensures
        before(iterate(ds, i), iterate(ds, j)),
{
    lemma_iterate_before(ds, i, j);
}

/// Names handed out by successive calls never repeat: from any valid counter,
/// the names after `i` and after `j` steps differ whenever `i < j`, since every
/// step moves the counter strictly forward (to the next number of the same
/// length, or to a longer counter).
pub proof fn generated_names_distinct(ds: Seq<usize>, domain: Seq<char>, i: nat, j: nat)
    requires
        valid_digits(ds),
        i < j,
    ensures
        subdomain_name(iterate(ds, i), domain) != subdomain_name(iterate(ds, j), domain),
{
    let a = iterate(ds, i);
    let b = iterate(ds, j);
    lemma_iterate_before(ds, i, j);
    lemma_iterate_valid(ds, i);
    lemma_iterate_valid(ds, j);
    if subdomain_name(a, domain) == subdomain_name(b, domain) {
        assert(label(a).len() == a.len() && label(b).len() == b.len());
        assert(subdomain_name(a, domain).len() == a.len() + 1 + domain.len());
        assert(a.len() == b.len());
        assert(label(a) =~= subdomain_name(a, domain).take(a.len() as int));
        assert(label(b) =~= subdomain_name(b, domain).take(b.len() as int));
        lemma_label_injective(a, b);
    }
}

} // verus!
