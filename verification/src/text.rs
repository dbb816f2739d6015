//! Character-level helpers shared by the text scanners.
use vstd::prelude::*;

verus! {

/// Whether `c` is whitespace as Unicode defines it (`White_Space`).
pub open spec fn is_whitespace(c: char) -> bool {
    let n = c as u32;
    ||| 0x09 <= n <= 0x0D
    ||| n == 0x20
    ||| n == 0x85
    ||| n == 0xA0
    ||| n == 0x1680
    ||| 0x2000 <= n <= 0x200A
    ||| n == 0x2028
    ||| n == 0x2029
    ||| n == 0x202F
    ||| n == 0x205F
    ||| n == 0x3000
}

/// Whether `key` stands in `s` at `pos`.
pub open spec fn occurs_at(s: Seq<char>, pos: int, key: Seq<char>) -> bool {
    &&& 0 <= pos
    &&& pos + key.len() <= s.len()
    &&& s.subrange(pos, pos + key.len()) == key
}

/// The characters of `s`, in order, as an indexable vector.
pub fn chars_of(s: &str) -> (v: Vec<char>)
    ensures
        v@ == s@,
{
    let mut v: Vec<char> = Vec::new();
    for c in it: s.chars()
        invariant
            it.seq() == s@,
            v@ == s@.take(it.index()),
    {
        v.push(c);
    }
    v
}

/// Whether `c` is Unicode whitespace.
pub fn whitespace(c: char) -> (b: bool)
    ensures
        b == is_whitespace(c),
{
    let n: u32 = c as u32;
    (0x09 <= n && n <= 0x0D) || n == 0x20 || n == 0x85 || n == 0xA0 || n == 0x1680 || (0x2000 <= n
        && n <= 0x200A) || n == 0x2028 || n == 0x2029 || n == 0x202F || n == 0x205F || n == 0x3000
}

/// Whether the characters of `key` stand in `v` at `pos`.
pub fn stands_at(v: &Vec<char>, pos: usize, key: &[char]) -> (b: bool)
    ensures
        b == occurs_at(v@, pos as int, key@),
{
    if key.len() > v.len() || pos > v.len() - key.len() {
        return false;
    }
    let mut k: usize = 0;
    while k < key.len()
        invariant
            k <= key.len(),
            pos + key.len() <= v.len(),
            forall|j: int| 0 <= j < k ==> v@[pos + j] == key@[j],
        decreases key.len() - k,
    {
        if v[pos + k] != key[k] {
            assert(v@.subrange(pos as int, pos + key.len())[k as int] != key@[k as int]);
            return false;
        }
        k += 1;
    }
    assert(v@.subrange(pos as int, pos + key.len()) =~= key@);
    true
}

} // verus!
