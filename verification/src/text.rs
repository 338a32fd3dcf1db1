//! Comparisons on names, stated over sequences of characters.

use vstd::prelude::*;

verus! {

/// The lower-case form of an ASCII letter; any other character is itself.
pub open spec fn lower(c: char) -> char {
    if 'A' <= c && c <= 'Z' {
        ((c as u8) + 32) as char
    } else {
        c
    }
}

/// `a` and `b` are the same name when ASCII letters are compared without case.
pub open spec fn same_ignoring_case(a: Seq<char>, b: Seq<char>) -> bool {
    &&& a.len() == b.len()
    &&& forall|i: int| 0 <= i < a.len() ==> lower(#[trigger] a[i]) == lower(b[i])
}

/// `part` stands in `whole` at position `at`.
pub open spec fn occurs_at(whole: Seq<char>, part: Seq<char>, at: int) -> bool {
    &&& 0 <= at
    &&& at + part.len() <= whole.len()
    &&& whole.subrange(at, at + part.len()) == part
}

/// `part` stands somewhere in `whole`.
pub open spec fn contains(whole: Seq<char>, part: Seq<char>) -> bool {
    exists|at: int| occurs_at(whole, part, at)
}

/// `name` is `zone` itself or ends with a dot followed by `zone`.
pub open spec fn in_zone(name: Seq<char>, zone: Seq<char>) -> bool {
    ||| name == zone
    ||| (name.len() > zone.len() && name[name.len() - zone.len() - 1] == '.' && occurs_at(
        name,
        zone,
        name.len() - zone.len(),
    ))
}

/// The characters of `s`.
pub fn chars_of(s: &str) -> (v: Vec<char>)
    ensures
        v@ == s@,
{
    let n: usize = s.unicode_len();
    let mut v: Vec<char> = Vec::new();
    let mut i: usize = 0;
    while i < n
        invariant
            i <= n,
            n == s@.len(),
            v@ == s@.take(i as int),
        decreases n - i,
    {
        v.push(s.get_char(i));
        assert(v@ =~= s@.take(i + 1));
        i = i + 1;
    }
    assert(s@.take(n as int) =~= s@);
    v
}

/// The lower-case form of an ASCII letter; any other character is itself.
pub fn to_lower(c: char) -> (r: char)
    ensures
        r == lower(c),
{
    if 'A' <= c && c <= 'Z' {
        ((c as u8) + 32) as char
    } else {
        c
    }
}

/// Whether two names are the same when ASCII letters are compared without case.
pub fn eq_ignoring_case(a: &Vec<char>, b: &Vec<char>) -> (r: bool)
    ensures
        r == same_ignoring_case(a@, b@),
{
    if a.len() != b.len() {
        return false;
    }
    let n: usize = a.len();
    let mut i: usize = 0;
    while i < n
        invariant
            i <= n,
            n == a.len(),
            n == b.len(),
            forall|j: int| 0 <= j < i ==> lower(#[trigger] a@[j]) == lower(b@[j]),
        decreases n - i,
    {
        if to_lower(a[i]) != to_lower(b[i]) {
            assert(lower(a@[i as int]) != lower(b@[i as int]));
            return false;
        }
        i = i + 1;
    }
    true
}

/// Whether `part` stands in `whole` at position `at`.
pub fn found_at(whole: &Vec<char>, part: &Vec<char>, at: usize) -> (r: bool)
    ensures
        r == occurs_at(whole@, part@, at as int),
{
    if part.len() > whole.len() || at > whole.len() - part.len() {
        return false;
    }
    let n: usize = part.len();
    let mut i: usize = 0;
    while i < n
        invariant
            i <= n,
            n == part.len(),
            at + n <= whole.len(),
            forall|j: int| 0 <= j < i ==> whole@[at + j] == part@[j],
        decreases n - i,
    {
        if whole[at + i] != part[i] {
            assert(whole@.subrange(at as int, at + n)[i as int] != part@[i as int]);
            return false;
        }
        i = i + 1;
    }
    assert(whole@.subrange(at as int, at + n) =~= part@);
    true
}

/// Whether `part` stands somewhere in `whole`.
pub fn has_part(whole: &Vec<char>, part: &Vec<char>) -> (r: bool)
    ensures
        r == contains(whole@, part@),
{
    if part.len() > whole.len() {
        assert(forall|at: int| !occurs_at(whole@, part@, at));
        return false;
    }
    let last: usize = whole.len() - part.len();
    let mut at: usize = 0;
    while at < last
        invariant
            at <= last,
            last == whole.len() - part.len(),
            forall|k: int| 0 <= k < at ==> !occurs_at(whole@, part@, k),
        decreases last - at,
    {
        if found_at(whole, part, at) {
            return true;
        }
        at = at + 1;
    }
    let found = found_at(whole, part, last);
    assert(!found ==> forall|k: int| !occurs_at(whole@, part@, k));
    found
}

/// Whether `name` is `zone` itself or ends with a dot followed by `zone`.
pub fn is_in_zone(name: &Vec<char>, zone: &Vec<char>) -> (r: bool)
    ensures
        r == in_zone(name@, zone@),
{
    if name.len() == zone.len() {
        let same = found_at(name, zone, 0);
        assert(name@.subrange(0, name@.len() as int) =~= name@);
        same
    } else if name.len() > zone.len() {
        let at: usize = name.len() - zone.len();
        name[at - 1] == '.' && found_at(name, zone, at)
    } else {
        false
    }
}

} // verus!
