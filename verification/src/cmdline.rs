//! Naming hints on the kernel command line: `ifname=<name>:<mac>`.
use vstd::prelude::*;
use vstd::string::StrSliceExecFns;
use crate::mac::{
    is_mac_text, is_mac_text_at, lemma_mac_text_window, mac_text_octets, normalize, octets_at,
    MacAddress,
};
use crate::name::{is_device_name, DeviceName, MAX_NAME_LEN};
use crate::text::{chars_of, occurs_at, stands_at, whitespace};

verus! {

/// The key that opens a naming hint.
pub open spec fn ifname_key() -> Seq<char> {
    seq!['i', 'f', 'n', 'a', 'm', 'e', '=']
}

/// Whether a hint with a name of `n` characters stands in `s` at `pos`: the
/// key, a device name, a `:` and the text of a hardware address.
pub open spec fn is_hint_at(s: Seq<char>, pos: int, n: int) -> bool {
    &&& occurs_at(s, pos, ifname_key())
    &&& 0 <= n
    &&& pos + 7 + n < s.len()
    &&& is_device_name(s.subrange(pos + 7, pos + 7 + n))
    &&& s[pos + 7 + n] == ':'
    &&& is_mac_text_at(s, pos + 8 + n)
}

/// The name that the hint at `pos` gives.
pub open spec fn hint_name(s: Seq<char>, pos: int, n: int) -> Seq<char> {
    s.subrange(pos + 7, pos + 7 + n)
}

/// The address that the hint at `pos` names.
pub open spec fn hint_octets(s: Seq<char>, pos: int, n: int) -> Seq<u8> {
    octets_at(s, pos + 8 + n)
}

/// Whether a hint for the address `target` stands in `s` at `pos`.
pub open spec fn names_target(s: Seq<char>, pos: int, n: int, target: Seq<u8>) -> bool {
    is_hint_at(s, pos, n) && hint_octets(s, pos, n) == target
}

/// Whether the hint at `pos` is the leftmost one in `s` for `target`.
pub open spec fn is_first_hint_for(s: Seq<char>, target: Seq<u8>, pos: int, n: int) -> bool {
    &&& names_target(s, pos, n, target)
    &&& forall|p: int, m: int| p < pos ==> !names_target(s, p, m, target)
}

/// Whether `answer` is what the command line `s` says about `target`: the
/// name of the leftmost hint for it, or nothing where no hint is for it.
pub open spec fn is_answer(s: Seq<char>, target: Seq<u8>, answer: Option<Seq<char>>) -> bool {
    match answer {
        Some(name) => exists|pos: int, n: int|
            is_first_hint_for(s, target, pos, n) && name == hint_name(s, pos, n),
        None => forall|pos: int, n: int| !names_target(s, pos, n, target),
    }
}

/// The name that the command line `s` hints for `target`: that of the
/// leftmost hint for it.
pub open spec fn hinted_name(s: Seq<char>, target: Seq<u8>) -> Option<Seq<char>> {
    if exists|pos: int, n: int| is_first_hint_for(s, target, pos, n) {
        let (pos, n) = choose|pos: int, n: int| is_first_hint_for(s, target, pos, n);
        Some(hint_name(s, pos, n))
    } else {
        None
    }
}

/// Whether a device name of `n` characters starts at `from` and is closed by
/// a `:`.
pub open spec fn is_closed_name(s: Seq<char>, from: int, n: int) -> bool {
    &&& 0 <= n
    &&& from + n < s.len()
    &&& is_device_name(s.subrange(from, from + n))
    &&& s[from + n] == ':'
}

/// Two leftmost hints for one address are the same hint.
proof fn lemma_first_hint_unique(s: Seq<char>, target: Seq<u8>, p: int, n: int, q: int, m: int)
    requires
        is_first_hint_for(s, target, p, n),
        is_first_hint_for(s, target, q, m),
    ensures
        p == q,
        n == m,
{
    assert(names_target(s, p, n, target));
    assert(names_target(s, q, m, target));
    lemma_closed_name_unique(s, p + 7, n, m);
}

/// Where a hint for an address stands, a leftmost one stands too.
proof fn lemma_first_hint_exists(s: Seq<char>, target: Seq<u8>, pos: int, n: int)
    requires
        names_target(s, pos, n, target),
    ensures
        exists|p: int, m: int| is_first_hint_for(s, target, p, m),
    decreases pos,
{
    if exists|p: int, m: int| p < pos && names_target(s, p, m, target) {
        let (p, m) = choose|p: int, m: int| p < pos && names_target(s, p, m, target);
        lemma_first_hint_exists(s, target, p, m);
    } else {
        assert(is_first_hint_for(s, target, pos, n));
    }
}

/// At most one length makes a closed name at `from`.
proof fn lemma_closed_name_unique(s: Seq<char>, from: int, n: int, m: int)
    requires
        0 <= from,
        is_closed_name(s, from, n),
        is_closed_name(s, from, m),
    ensures
        n == m,
{
    if n < m {
        assert(s.subrange(from, from + m)[n] == s[from + n]);
    }
    if m < n {
        assert(s.subrange(from, from + n)[m] == s[from + m]);
    }
}

/// The length of the device name that starts at `from` and is closed by a
/// `:`, if there is one.
fn closed_name_len(v: &Vec<char>, from: usize) -> (res: Option<usize>)
    requires
        from <= v.len(),
    ensures
        res matches Some(n) ==> is_closed_name(v@, from as int, n as int),
        res is None ==> forall|m: int| !is_closed_name(v@, from as int, m),
{
    let mut j: usize = from;
    while j < v.len() && j - from <= MAX_NAME_LEN && v[j] != ':'
        invariant
            from <= j <= v.len(),
            j - from <= MAX_NAME_LEN + 1,
            forall|i: int| from <= i < j ==> v@[i] != ':',
        decreases v.len() - j,
    {
        j += 1;
    }
    if j < v.len() && v[j] == ':' && j - from >= 1 && j - from <= MAX_NAME_LEN && !whitespace(
        v[from],
    ) {
        let ghost name = v@.subrange(from as int, j as int);
        assert(name[0] == v@[from as int]);
        assert forall|i: int| 0 <= i < name.len() implies name[i] != ':' by {
            assert(name[i] == v@[from + i]);
        }
        Some(j - from)
    } else {
        assert forall|m: int| !is_closed_name(v@, from as int, m) by {
            if is_closed_name(v@, from as int, m) {
                let name = v@.subrange(from as int, from + m);
                if from + m < j {
                    assert(v@[from + m] != ':');
                } else if from + m > j {
                    assert(name[j - from] == v@[j as int]);
                    assert(j - from <= MAX_NAME_LEN);
                    assert(j < v.len());
                    assert(v@[j as int] == ':');
                } else {
                    assert(name[0] == v@[from as int]);
                }
            }
        }
        None
    }
}

/// The name that the hint at `pos` gives for `target`, if a hint for
/// `target` stands there.
fn hinted_name_at(source_text: &str, v: &Vec<char>, pos: usize, target: &MacAddress) -> (res:
    Option<DeviceName>)
    requires
        v@ == source_text@,
        pos < v.len(),
    ensures
        res matches Some(name) ==> names_target(v@, pos as int, name@.len() as int, target@)
            && name@ == hint_name(v@, pos as int, name@.len() as int),
        res is None ==> forall|m: int| !names_target(v@, pos as int, m, target@),
{
    let key: [char; 7] = ['i', 'f', 'n', 'a', 'm', 'e', '='];
    assert(key@ =~= ifname_key());
    if !stands_at(v, pos, key.as_slice()) {
        return None;
    }
    let n: usize = match closed_name_len(v, pos + 7) {
        Some(n) => n,
        None => {
            assert forall|m: int| !is_hint_at(v@, pos as int, m) by {
                assert(!is_closed_name(v@, pos + 7, m));
            }
            return None;
        },
    };
    assert forall|m: int| is_hint_at(v@, pos as int, m) implies m == n by {
        lemma_closed_name_unique(v@, pos + 7, n as int, m);
    }
    let start: usize = pos + 8 + n;
    if v.len() - start < 17 {
        return None;
    }
    proof {
        lemma_mac_text_window(v@, start as int);
    }
    let mac = match normalize(source_text.substring_char(start, start + 17)) {
        Ok(mac) => mac,
        Err(_) => {
            return None;
        },
    };
    if mac != *target {
        return None;
    }
    match DeviceName::new(source_text.substring_char(pos + 7, pos + 7 + n)) {
        Ok(name) => Some(name),
        Err(_) => None,
    }
}

/// Looks on the kernel command line for the name hinted for `target`.
///
/// The hints are tried from left to right, and the first one whose address
/// equals `target` gives the name. An `ifname=` that is not followed by a
/// device name, a `:` and a well-formed address is no hint.
pub fn find_device_name(source_text: &str, target: &MacAddress) -> (res: Option<DeviceName>)
    ensures
        hinted_name(source_text@, target@) == match res {
            Some(name) => Some(name@),
            None => None,
        },
        is_answer(source_text@, target@, hinted_name(source_text@, target@)),
{
    let v = chars_of(source_text);
    let mut pos: usize = 0;
    while pos < v.len()
        invariant
            v@ == source_text@,
            pos <= v.len(),
            forall|p: int, m: int| p < pos ==> !names_target(v@, p, m, target@),
        decreases v.len() - pos,
    {
        if let Some(name) = hinted_name_at(source_text, &v, pos, target) {
            proof {
                let n = name@.len() as int;
                assert(is_first_hint_for(v@, target@, pos as int, n));
                let (p, m) = choose|p: int, m: int| is_first_hint_for(v@, target@, p, m);
                lemma_first_hint_unique(v@, target@, pos as int, n, p, m);
            }
            return Some(name);
        }
        pos += 1;
    }
    assert forall|p: int, m: int| !names_target(v@, p, m, target@) by {
        if p >= v.len() {
            assert(!occurs_at(v@, p, ifname_key()));
        }
    }
    None
}

/// The text of one hint: the key, the name, a `:` and the address text.
pub open spec fn hint_text(name: Seq<char>, mac_text: Seq<char>) -> Seq<char> {
    ifname_key() + name + seq![':'] + mac_text
}

/// The hinted name is the answer of the command line: it belongs to a hint
/// for the address left of which no other hint for it stands, and it is
/// missing only where no hint for the address stands at all.
pub proof fn law_hinted_name_is_answer(s: Seq<char>, target: Seq<u8>)
    ensures
        is_answer(s, target, hinted_name(s, target)),
{
    if exists|pos: int, n: int| is_first_hint_for(s, target, pos, n) {
        let (pos, n) = choose|pos: int, n: int| is_first_hint_for(s, target, pos, n);
        assert(is_first_hint_for(s, target, pos, n) && hinted_name(s, target) == Some(
            hint_name(s, pos, n),
        ));
    } else {
        assert forall|pos: int, n: int| !names_target(s, pos, n, target) by {
            if names_target(s, pos, n, target) {
                lemma_first_hint_exists(s, target, pos, n);
            }
        }
    }
}

/// A command line has one answer for an address.
pub proof fn law_answer_unique(
    s: Seq<char>,
    target: Seq<u8>,
    a: Option<Seq<char>>,
    b: Option<Seq<char>>,
)
    requires
        is_answer(s, target, a),
        is_answer(s, target, b),
    ensures
        a == b,
{
    match (a, b) {
        (Some(x), Some(y)) => {
            let (p, n) = choose|p: int, n: int|
                is_first_hint_for(s, target, p, n) && x == hint_name(s, p, n);
            let (q, m) = choose|q: int, m: int|
                is_first_hint_for(s, target, q, m) && y == hint_name(s, q, m);
            assert(names_target(s, p, n, target));
            assert(names_target(s, q, m, target));
            lemma_first_hint_unique(s, target, p, n, q, m);
        },
        (Some(x), None) => {
            let (p, n) = choose|p: int, n: int|
                is_first_hint_for(s, target, p, n) && x == hint_name(s, p, n);
            assert(names_target(s, p, n, target));
        },
        (None, Some(y)) => {
            let (q, m) = choose|q: int, m: int|
                is_first_hint_for(s, target, q, m) && y == hint_name(s, q, m);
            assert(names_target(s, q, m, target));
        },
        (None, None) => {},
    }
}

/// A well-formed `ifname=NAME:MAC` anywhere on a command line is a hint for
/// the address that `MAC` writes, whatever the case of its digits, so the
/// search for that address finds a name.
pub proof fn law_token_is_hint(
    before: Seq<char>,
    name: Seq<char>,
    mac_text: Seq<char>,
    after: Seq<char>,
)
    requires
        is_device_name(name),
        is_mac_text(mac_text),
    ensures
        names_target(
            before + hint_text(name, mac_text) + after,
            before.len() as int,
            name.len() as int,
            mac_text_octets(mac_text),
        ),
        hinted_name(before + hint_text(name, mac_text) + after, mac_text_octets(mac_text)) is Some,
{
    let s = before + hint_text(name, mac_text) + after;
    let pos = before.len() as int;
    let n = name.len() as int;
    assert(s.subrange(pos, pos + 7) =~= ifname_key());
    assert(s.subrange(pos + 7, pos + 7 + n) =~= name);
    assert(s.subrange(pos + 8 + n, pos + 8 + n + 17) =~= mac_text);
    lemma_mac_text_window(s, pos + 8 + n);
    lemma_first_hint_exists(s, mac_text_octets(mac_text), pos, n);
}

/// On a command line that is one `ifname=NAME:MAC` and nothing else, the
/// search for the address that `MAC` writes gives `NAME`, and the search for
/// any other address gives nothing.
pub proof fn law_lone_token(name: Seq<char>, mac_text: Seq<char>, target: Seq<u8>)
    requires
        is_device_name(name),
        is_mac_text(mac_text),
    ensures
        hinted_name(hint_text(name, mac_text), target) == if target == mac_text_octets(mac_text) {
            Some(name)
        } else {
            None
        },
{
    let s = hint_text(name, mac_text);
    let n = name.len() as int;
    let empty = Seq::<char>::empty();
    law_token_is_hint(empty, name, mac_text, empty);
    assert(empty + s + empty =~= s);
    assert(s.subrange(7, 7 + n) =~= name);
    if target == mac_text_octets(mac_text) {
        assert(is_first_hint_for(s, target, 0, n));
        let (p, m) = choose|p: int, m: int| is_first_hint_for(s, target, p, m);
        lemma_first_hint_unique(s, target, 0, n, p, m);
    } else {
        assert forall|p: int, m: int| !names_target(s, p, m, target) by {
            if is_hint_at(s, p, m) {
                // The `:` that closes the name is the one after `NAME`: no
                // `:` stands before it, and the address needs 17 characters
                // after it.
                assert(p + 8 + m + 17 <= s.len());
                let c = p + 7 + m;
                if c < 7 {
                    assert(s[c] == ifname_key()[c]);
                } else if c < 7 + n {
                    assert(s[c] == name[c - 7]);
                }
                assert(c == 7 + n);
            }
        }
    }
}

} // verus!
