//! Text as sequences of characters: case folding and comparison.

use vstd::prelude::*;
use vstd::std_specs::iter::IteratorSpec;

verus! {

/// Outcome of a three-way comparison.
#[derive(Clone, Copy, Debug, PartialEq, Eq, Structural)]
pub enum Order {
    Less,
    Equal,
    Greater,
}

impl Order {
    /// The outcome with the two sides exchanged.
    pub open spec fn flip(self) -> Order {
        match self {
            Order::Less => Order::Greater,
            Order::Equal => Order::Equal,
            Order::Greater => Order::Less,
        }
    }

    /// This outcome, or `next` where this one is a tie.
    pub open spec fn refine(self, next: Order) -> Order {
        if self == Order::Equal {
            next
        } else {
            self
        }
    }
}

/// A three-way comparison that comes from a total order: exchanging the
/// sides flips the outcome, only identical values tie, and "not greater"
/// carries over.
pub open spec fn is_order<A>(f: spec_fn(A, A) -> Order) -> bool {
    &&& forall|x: A, y: A| #[trigger] f(x, y) == f(y, x).flip()
    &&& forall|x: A, y: A| (#[trigger] f(x, y) == Order::Equal) <==> x == y
    &&& forall|x: A, y: A, z: A|
        #[trigger] f(x, y) != Order::Greater && #[trigger] f(y, z) != Order::Greater ==> f(x, z)
            != Order::Greater
}

/// Lexicographic comparison of two sequences by `f`: the first place where
/// they differ decides, and a proper prefix is less.
pub open spec fn lex<A>(a: Seq<A>, b: Seq<A>, f: spec_fn(A, A) -> Order) -> Order
    decreases a.len(),
{
    if a.len() == 0 {
        if b.len() == 0 {
            Order::Equal
        } else {
            Order::Less
        }
    } else if b.len() == 0 {
        Order::Greater
    } else {
        f(a[0], b[0]).refine(lex(a.drop_first(), b.drop_first(), f))
    }
}

pub proof fn lemma_lex_flip<A>(a: Seq<A>, b: Seq<A>, f: spec_fn(A, A) -> Order)
    requires
        is_order(f),
    ensures
        lex(a, b, f) == lex(b, a, f).flip(),
    decreases a.len(),
{
    if a.len() > 0 && b.len() > 0 {
        assert(f(a[0], b[0]) == f(b[0], a[0]).flip());
        lemma_lex_flip(a.drop_first(), b.drop_first(), f);
    }
}

pub proof fn lemma_lex_equal<A>(a: Seq<A>, b: Seq<A>, f: spec_fn(A, A) -> Order)
    requires
        is_order(f),
    ensures
        (lex(a, b, f) == Order::Equal) <==> a == b,
    decreases a.len(),
{
    if a.len() > 0 && b.len() > 0 {
        assert((f(a[0], b[0]) == Order::Equal) <==> a[0] == b[0]);
        lemma_lex_equal(a.drop_first(), b.drop_first(), f);
        if a[0] == b[0] && a.drop_first() == b.drop_first() {
            assert(a =~= seq![a[0]] + a.drop_first());
            assert(b =~= seq![b[0]] + b.drop_first());
        }
    } else if a.len() == 0 && b.len() == 0 {
        assert(a =~= b);
    }
}

pub proof fn lemma_lex_trans<A>(a: Seq<A>, b: Seq<A>, c: Seq<A>, f: spec_fn(A, A) -> Order)
    requires
        is_order(f),
        lex(a, b, f) != Order::Greater,
        lex(b, c, f) != Order::Greater,
    ensures
        lex(a, c, f) != Order::Greater,
    decreases a.len(),
{
    if a.len() > 0 && b.len() > 0 && c.len() > 0 {
        let ab = f(a[0], b[0]);
        let bc = f(b[0], c[0]);
        let ac = f(a[0], c[0]);
        assert(ab != Order::Greater && bc != Order::Greater ==> ac != Order::Greater);
        assert((ab == Order::Equal) <==> a[0] == b[0]);
        assert((bc == Order::Equal) <==> b[0] == c[0]);
        assert((ac == Order::Equal) <==> a[0] == c[0]);
        assert(bc == f(c[0], b[0]).flip());
        if ab == Order::Equal && bc == Order::Equal {
            lemma_lex_trans(a.drop_first(), b.drop_first(), c.drop_first(), f);
        }
    }
}

/// Comparison of two characters by their code points.
pub open spec fn chars_compared(x: char, y: char) -> Order {
    if x < y {
        Order::Less
    } else if x > y {
        Order::Greater
    } else {
        Order::Equal
    }
}

/// [`chars_compared`] as a function value.
pub open spec fn char_order() -> spec_fn(char, char) -> Order {
    |x: char, y: char| chars_compared(x, y)
}

/// Lexicographic comparison of two texts.
pub open spec fn texts_compared(a: Seq<char>, b: Seq<char>) -> Order {
    lex(a, b, char_order())
}

/// [`texts_compared`] as a function value.
pub open spec fn text_order() -> spec_fn(Seq<char>, Seq<char>) -> Order {
    |a: Seq<char>, b: Seq<char>| texts_compared(a, b)
}

/// Lexicographic comparison of two sequences of names.
pub open spec fn names_compared(a: Seq<Seq<char>>, b: Seq<Seq<char>>) -> Order {
    lex(a, b, text_order())
}

pub proof fn lemma_char_order()
    ensures
        is_order(char_order()),
{
}

pub proof fn lemma_text_order()
    ensures
        is_order(text_order()),
{
    lemma_char_order();
    let f = text_order();
    assert forall|x: Seq<char>, y: Seq<char>| #[trigger] f(x, y) == f(y, x).flip() by {
        lemma_lex_flip(x, y, char_order());
    }
    assert forall|x: Seq<char>, y: Seq<char>| (#[trigger] f(x, y) == Order::Equal) <==> x == y by {
        lemma_lex_equal(x, y, char_order());
    }
    assert forall|x: Seq<char>, y: Seq<char>, z: Seq<char>|
        #[trigger] f(x, y) != Order::Greater && #[trigger] f(y, z) != Order::Greater implies f(x, z)
        != Order::Greater by {
        lemma_lex_trans(x, y, z, char_order());
    }
}

/// The character with an ASCII upper-case letter replaced by its lower-case
/// form; every other character is left alone.
pub open spec fn fold_char(c: char) -> char {
    if 'A' <= c && c <= 'Z' {
        ((c as u32) + 32) as char
    } else {
        c
    }
}

/// Two texts are the same up to the case of ASCII letters.
pub open spec fn same_ignoring_case(a: Seq<char>, b: Seq<char>) -> bool {
    &&& a.len() == b.len()
    &&& forall|i: int| 0 <= i < a.len() ==> fold_char(a[i]) == fold_char(b[i])
}

pub fn to_ascii_lower(c: char) -> (r: char)
    ensures
        r == fold_char(c),
{
    if 'A' <= c && c <= 'Z' {
        let code: u8 = c as u8;
        (code + 32) as char
    } else {
        c
    }
}

pub fn eq_ignore_ascii_case(a: &Vec<char>, b: &Vec<char>) -> (same: bool)
    ensures
        same == same_ignoring_case(a@, b@),
{
    if a.len() != b.len() {
        return false;
    }
    let mut i: usize = 0;
    while i < a.len()
        invariant
            i <= a.len(),
            a.len() == b.len(),
            forall|k: int| 0 <= k < i ==> fold_char(a@[k]) == fold_char(b@[k]),
        decreases a.len() - i,
    {
        if to_ascii_lower(a[i]) != to_ascii_lower(b[i]) {
            return false;
        }
        i += 1;
    }
    true
}

/// Compares two characters by their code points.
pub fn compare_chars(x: char, y: char) -> (o: Order)
    ensures
        o == chars_compared(x, y),
{
    if x < y {
        Order::Less
    } else if x > y {
        Order::Greater
    } else {
        Order::Equal
    }
}

/// Compares two texts lexicographically.
pub fn compare_text(a: &Vec<char>, b: &Vec<char>) -> (o: Order)
    ensures
        o == texts_compared(a@, b@),
{
    let mut i: usize = 0;
    proof {
        assert(a@.skip(0) =~= a@);
        assert(b@.skip(0) =~= b@);
    }
    while i < a.len() && i < b.len()
        invariant
            i <= a.len(),
            i <= b.len(),
            texts_compared(a@, b@) == texts_compared(a@.skip(i as int), b@.skip(i as int)),
        decreases a.len() - i,
    {
        proof {
            assert(a@.skip(i as int).drop_first() =~= a@.skip(i + 1));
            assert(b@.skip(i as int).drop_first() =~= b@.skip(i + 1));
        }
        match compare_chars(a[i], b[i]) {
            Order::Less => {
                return Order::Less;
            },
            Order::Greater => {
                return Order::Greater;
            },
            Order::Equal => {},
        }
        i += 1;
    }
    if i < b.len() {
        Order::Less
    } else if i < a.len() {
        Order::Greater
    } else {
        Order::Equal
    }
}

/// The characters of a string slice, in order.
pub fn chars_of(s: &str) -> (v: Vec<char>)
    ensures
        v@ == s@,
{
    broadcast use vstd::string::group_string_axioms;

    let mut v: Vec<char> = Vec::new();
    let mut it = s.chars();
    proof {
        assert(v@ + it.remaining() =~= s@);
    }
    loop
        invariant
            it.obeys_prophetic_iter_laws(),
            it.decrease() is Some,
            v@ + it.remaining() == s@,
        ensures
            v@ == s@,
        decreases it.decrease()->0,
    {
        let ghost before = it.remaining();
        match it.next() {
            Some(c) => {
                v.push(c);
                proof {
                    assert(v@ + it.remaining() =~= s@);
                }
            },
            None => {
                proof {
                    assert(before.len() == 0);
                    assert(v@ + before =~= v@);
                }
                break;
            },
        }
    }
    v
}

} // verus!
