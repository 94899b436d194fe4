use vstd::prelude::*;

verus! {

/// An ASCII decimal digit.
pub open spec fn is_digit(c: char) -> bool {
    '0' <= c && c <= '9'
}

pub open spec fn digit_value(c: char) -> int {
    (c as u32) as int - ('0' as u32) as int
}

pub open spec fn digit_char(d: int) -> char {
    if d == 0 { '0' }
    else if d == 1 { '1' }
    else if d == 2 { '2' }
    else if d == 3 { '3' }
    else if d == 4 { '4' }
    else if d == 5 { '5' }
    else if d == 6 { '6' }
    else if d == 7 { '7' }
    else if d == 8 { '8' }
    else { '9' }
}

pub open spec fn all_digits(s: Seq<char>) -> bool {
    forall|i: int| 0 <= i < s.len() ==> is_digit(#[trigger] s[i])
}

/// The value of a string of decimal digits, most significant first.
pub open spec fn digits_value(s: Seq<char>) -> int
    decreases s.len(),
{
    if s.len() == 0 {
        0
    } else {
        10 * digits_value(s.drop_last()) + digit_value(s.last())
    }
}

/// The shortest decimal digits of a natural number.
pub open spec fn nat_digits(n: nat) -> Seq<char>
    decreases n,
{
    if n < 10 {
        seq![digit_char(n as int)]
    } else {
        nat_digits(n / 10).push(digit_char((n % 10) as int))
    }
}

/// An integer written in decimal, with a leading `-` when negative.
pub open spec fn int_text(v: int) -> Seq<char> {
    if v < 0 {
        seq!['-'].add(nat_digits((-v) as nat))
    } else {
        nat_digits(v as nat)
    }
}

/// What an `i64` reads as: an optional `+` or `-`, then one or more ASCII digits
/// whose signed value fits in 64 bits; nothing else.
pub open spec fn parsed_i64(s: Seq<char>) -> Option<i64> {
    let signed = s.len() > 0 && (s[0] == '-' || s[0] == '+');
    let body = if signed { s.skip(1) } else { s };
    let v = if s.len() > 0 && s[0] == '-' { -digits_value(body) } else { digits_value(body) };
    if body.len() > 0 && all_digits(body) && i64::MIN <= v <= i64::MAX {
        Some(v as i64)
    } else {
        None
    }
}

/// The id that a cross-reference field links to: none when the field is absent,
/// the integer it reads as when it reads as one, and 0 when it holds anything else.
pub open spec fn cross_ref_value(field: Option<Seq<char>>) -> Option<i64> {
    match field {
        None => None,
        Some(s) => match parsed_i64(s) {
            Some(v) => Some(v),
            None => Some(0),
        },
    }
}

/// A cross-reference field links to a source id.
pub open spec fn links_to(field: Option<Seq<char>>, id: i64) -> bool {
    cross_ref_value(field) == Some(id)
}

/// `i` is the first index below `n` where `p` holds.
pub open spec fn is_first(n: int, p: spec_fn(int) -> bool, i: int) -> bool {
    0 <= i < n && p(i) && forall|j: int| 0 <= j < i ==> !#[trigger] p(j)
}

/// The first index below `n` where `p` holds, if any.
pub open spec fn first_index(n: int, p: spec_fn(int) -> bool) -> Option<int> {
    if exists|i: int| is_first(n, p, i) {
        Some(choose|i: int| is_first(n, p, i))
    } else {
        None
    }
}

pub proof fn lemma_first_index_is(n: int, p: spec_fn(int) -> bool, i: int)
    requires
        is_first(n, p, i),
    ensures
        first_index(n, p) == Some(i),
{
    let k = choose|k: int| is_first(n, p, k);
    if k < i {
        assert(!p(k));
    } else if i < k {
        assert(!p(i));
    }
}

pub proof fn lemma_first_index_none(n: int, p: spec_fn(int) -> bool)
    requires
        forall|j: int| 0 <= j < n ==> !#[trigger] p(j),
    ensures
        first_index(n, p) is None,
{
}

pub proof fn lemma_first_index_some(n: int, p: spec_fn(int) -> bool, i: int)
    requires
        0 <= i < n,
        p(i),
    ensures
        first_index(n, p) is Some,
        is_first(n, p, first_index(n, p)->Some_0),
        first_index(n, p)->Some_0 <= i,
    decreases i,
{
    if exists|j: int| 0 <= j < i && #[trigger] p(j) {
        let j = choose|j: int| 0 <= j < i && #[trigger] p(j);
        lemma_first_index_some(n, p, j);
    } else {
        lemma_first_index_is(n, p, i);
    }
}

proof fn lemma_digit_char(d: int)
    requires
        0 <= d < 10,
    ensures
        is_digit(digit_char(d)),
        digit_value(digit_char(d)) == d,
{
}

proof fn lemma_nat_digits(n: nat)
    ensures
        nat_digits(n).len() > 0,
        all_digits(nat_digits(n)),
        digits_value(nat_digits(n)) == n,
        nat_digits(n)[0] != '-' && nat_digits(n)[0] != '+',
    decreases n,
{
    if n < 10 {
        lemma_digit_char(n as int);
        assert(nat_digits(n).drop_last() =~= Seq::<char>::empty());
        assert(digits_value(Seq::<char>::empty()) == 0);
    } else {
        lemma_nat_digits(n / 10);
        lemma_digit_char((n % 10) as int);
        let s = nat_digits(n);
        assert(s.drop_last() =~= nat_digits(n / 10));
        assert(s.last() == digit_char((n % 10) as int));
        assert(n == 10 * (n / 10) + n % 10);
        assert(all_digits(s)) by {
            assert forall|i: int| 0 <= i < s.len() implies is_digit(#[trigger] s[i]) by {
                if i < s.len() - 1 {
                    assert(s[i] == nat_digits(n / 10)[i]);
                }
            }
        }
    }
}

/// Reading back the decimal text of an `i64` gives the same `i64`.
pub proof fn lemma_parse_int_text(v: i64)
    ensures
        parsed_i64(int_text(v as int)) == Some(v),
{
    let s = int_text(v as int);
    if v < 0 {
        let m = (-v) as nat;
        lemma_nat_digits(m);
        assert(s.skip(1) =~= nat_digits(m));
    } else {
        lemma_nat_digits(v as nat);
    }
}

/// Relies on `i64::to_string`: the decimal text of the value, with `-` when negative.
#[verifier::external_body]
pub(crate) fn i64_to_text(v: i64) -> (r: String)
    ensures
        r@ == int_text(v as int),
{
    v.to_string()
}

/// Relies on `str::parse::<i64>`: `Ok` exactly for an optional sign and ASCII digits
/// whose value fits, and then that value.
#[verifier::external_body]
pub(crate) fn parse_i64(s: &str) -> (r: Option<i64>)
    ensures
        r == parsed_i64(s@),
{
    s.parse::<i64>().ok()
}

/// The id that a cross-reference field links to (see `cross_ref_value`).
pub fn cross_ref_id(field: &Option<String>) -> (r: Option<i64>)
    ensures
        r == cross_ref_value(field.deep_view()),
{
    match field {
        None => None,
        Some(s) => match parse_i64(s.as_str()) {
            Some(v) => Some(v),
            None => Some(0),
        },
    }
}

/// Whether a cross-reference field links to the source id `id`.
pub fn is_linked_to(field: &Option<String>, id: i64) -> (r: bool)
    ensures
        r == links_to(field.deep_view(), id),
{
    match cross_ref_id(field) {
        Some(v) => v == id,
        None => false,
    }
}

/// The first index of `s` at which `p` holds, found by a scan from the front.
pub(crate) fn scan_first<T>(s: &Vec<T>, Ghost(p): Ghost<spec_fn(int) -> bool>, f: impl Fn(&T) -> bool) -> (r: Option<usize>)
    requires
        forall|i: int, b: bool| 0 <= i < s.len() ==> (f.ensures((&s@[i],), b) ==> b == p(i)),
        forall|i: int| 0 <= i < s.len() ==> f.requires((&s@[i],)),
    ensures
        r matches Some(k) ==> first_index(s.len() as int, p) == Some(k as int),
        r is None ==> first_index(s.len() as int, p) is None,
{
    let mut i: usize = 0;
    while i < s.len()
        invariant
            0 <= i <= s.len(),
            forall|j: int| 0 <= j < i ==> !#[trigger] p(j),
            forall|j: int, b: bool| 0 <= j < s.len() ==> (f.ensures((&s@[j],), b) ==> b == p(j)),
            forall|j: int| 0 <= j < s.len() ==> f.requires((&s@[j],)),
        decreases s.len() - i,
    {
        if f(&s[i]) {
            proof {
                lemma_first_index_is(s.len() as int, p, i as int);
            }
            return Some(i);
        }
        i += 1;
    }
    None
}

} // verus!
