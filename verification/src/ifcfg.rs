//! Interface configuration files: lines of `KEY=value`, of which `DEVICE=`
//! and `HWADDR=` bind a name to a hardware address.
use vstd::prelude::*;
use vstd::string::StrSliceExecFns;
use crate::error::ResolveError;
use crate::mac::{
    is_mac_text, is_mac_text_at, lemma_mac_text_window, mac_text_at,
    mac_text_octets, normalize, octets_at, MacAddress,
};
use crate::name::{device_name_in, is_device_name, DeviceName, MAX_NAME_LEN};
use crate::text::{chars_of, is_whitespace, occurs_at, stands_at, whitespace};

verus! {

/// The key of the line that declares the device name.
pub open spec fn device_key() -> Seq<char> {
    seq!['D', 'E', 'V', 'I', 'C', 'E', '=']
}

/// The key of the line that declares the hardware address.
pub open spec fn hwaddr_key() -> Seq<char> {
    seq!['H', 'W', 'A', 'D', 'D', 'R', '=']
}

/// The index of the first character of `s` at or after `from` that is not
/// whitespace, or the length of `s` where only whitespace follows.
pub open spec fn skip_blank(s: Seq<char>, from: int) -> int
    decreases s.len() - from,
{
    if 0 <= from < s.len() && is_whitespace(s[from]) {
        skip_blank(s, from + 1)
    } else {
        from
    }
}

/// Where the name that starts at `from` ends, seen from `at`: before the
/// first `:`, at the end of `s`, or after 15 characters, whichever comes
/// first.
pub open spec fn capture_end(s: Seq<char>, from: int, at: int) -> int
    decreases s.len() - at,
{
    if 0 <= from <= at < s.len() && at < from + MAX_NAME_LEN && s[at] != ':' {
        capture_end(s, from, at + 1)
    } else {
        at
    }
}

/// The name that `line` declares, if it is a `DEVICE=` line: after optional
/// leading whitespace the key, then the longest device name that follows.
pub open spec fn device_of_line(line: Seq<char>) -> Option<Seq<char>> {
    let key_at = skip_blank(line, 0);
    let from = key_at + 7;
    let name = line.subrange(from, capture_end(line, from, from));
    if occurs_at(line, key_at, device_key()) && is_device_name(name) {
        Some(name)
    } else {
        None
    }
}

/// The address that `line` declares, if it is a `HWADDR=` line: after
/// optional leading whitespace the key, then the text of an address.
pub open spec fn hwaddr_of_line(line: Seq<char>) -> Option<Seq<u8>> {
    let key_at = skip_blank(line, 0);
    if occurs_at(line, key_at, hwaddr_key()) && is_mac_text_at(line, key_at + 7) {
        Some(octets_at(line, key_at + 7))
    } else {
        None
    }
}

/// The index of the first line feed of `s` at or after `from`, or the length
/// of `s` where none follows.
pub open spec fn line_break(s: Seq<char>, from: int) -> int
    decreases s.len() - from,
{
    if 0 <= from < s.len() && s[from] != '\n' {
        line_break(s, from + 1)
    } else {
        from
    }
}

/// Where the text of the line that starts at `from` ends: at its line feed,
/// or one earlier where a carriage return stands before the line feed.
pub open spec fn line_end(s: Seq<char>, from: int) -> int {
    let at = line_break(s, from);
    if from < at < s.len() && s[at - 1] == '\r' {
        at - 1
    } else {
        at
    }
}

/// The lines of `s` from the line that starts at `from` on. A line ends with
/// a line feed or with a carriage return and a line feed, neither of which
/// belongs to it; the last line may lack them.
pub open spec fn lines_from(s: Seq<char>, from: int) -> Seq<Seq<char>>
    decreases s.len() - from,
    via lines_from_decreases
{
    if 0 <= from < s.len() {
        let line = s.subrange(from, line_end(s, from));
        if line_break(s, from) < s.len() {
            seq![line] + lines_from(s, line_break(s, from) + 1)
        } else {
            seq![line]
        }
    } else {
        Seq::empty()
    }
}

#[via_fn]
proof fn lines_from_decreases(s: Seq<char>, from: int) {
    if 0 <= from < s.len() {
        lemma_line_break_bounds(s, from);
    }
}

/// The lines of `s`.
pub open spec fn lines_of(s: Seq<char>) -> Seq<Seq<char>> {
    lines_from(s, 0)
}

/// The name declared by the last `DEVICE=` line among `lines`.
pub open spec fn last_device(lines: Seq<Seq<char>>) -> Option<Seq<char>>
    decreases lines.len(),
{
    if lines.len() == 0 {
        None
    } else {
        match device_of_line(lines.last()) {
            Some(name) => Some(name),
            None => last_device(lines.drop_last()),
        }
    }
}

/// The address declared by the last `HWADDR=` line among `lines`.
pub open spec fn last_hwaddr(lines: Seq<Seq<char>>) -> Option<Seq<u8>>
    decreases lines.len(),
{
    if lines.len() == 0 {
        None
    } else {
        match hwaddr_of_line(lines.last()) {
            Some(octets) => Some(octets),
            None => last_hwaddr(lines.drop_last()),
        }
    }
}

/// The device name that the file `content` declares.
pub open spec fn declared_device(content: Seq<char>) -> Option<Seq<char>> {
    last_device(lines_of(content))
}

/// The hardware address that the file `content` declares.
pub open spec fn declared_hwaddr(content: Seq<char>) -> Option<Seq<u8>> {
    last_hwaddr(lines_of(content))
}

/// The name that the file `content` gives to the interface with the address
/// `target`: the declared device name, provided that the file declares an
/// address and that address is `target`.
pub open spec fn config_name(content: Seq<char>, target: Seq<u8>) -> Option<Seq<char>> {
    if declared_hwaddr(content) == Some(target) {
        declared_device(content)
    } else {
        None
    }
}

/// A line break lies between the start of its line and the end of the text.
pub proof fn lemma_line_break_bounds(s: Seq<char>, from: int)
    requires
        0 <= from <= s.len(),
    ensures
        from <= line_break(s, from) <= s.len(),
        line_break(s, from) < s.len() ==> s[line_break(s, from)] == '\n',
    decreases s.len() - from,
{
    if from < s.len() && s[from] != '\n' {
        lemma_line_break_bounds(s, from + 1);
    }
}

/// What one line of a configuration file says.
#[derive(Debug)]
pub enum ConfigEntry {
    /// `DEVICE=<name>`
    Device(DeviceName),
    /// `HWADDR=<mac>`
    Hwaddr(MacAddress),
    /// Any other line.
    Other,
}

/// The index of the first character of `v` that is not whitespace.
fn blank_prefix_len(v: &Vec<char>) -> (k: usize)
    ensures
        k == skip_blank(v@, 0),
        k <= v.len(),
{
    let mut k: usize = 0;
    while k < v.len() && whitespace(v[k])
        invariant
            k <= v.len(),
            skip_blank(v@, 0) == skip_blank(v@, k as int),
        decreases v.len() - k,
    {
        k += 1;
    }
    k
}

/// Where the name that starts at `from` ends.
fn name_capture_end(v: &Vec<char>, from: usize) -> (end: usize)
    requires
        from <= v.len(),
    ensures
        end == capture_end(v@, from as int, from as int),
        from <= end <= v.len(),
{
    let mut at: usize = from;
    while at < v.len() && at - from < MAX_NAME_LEN && v[at] != ':'
        invariant
            from <= at <= v.len(),
            capture_end(v@, from as int, from as int) == capture_end(v@, from as int, at as int),
        decreases v.len() - at,
    {
        at += 1;
    }
    at
}

/// Reads one line of a configuration file.
///
/// A `DEVICE=` line gives the name it declares, a `HWADDR=` line the
/// address; the key may be preceded by whitespace. Any other line, and a
/// keyed line whose value has not the required shape, is `Other`. The
/// captured text is parsed again as a name or an address; that this cannot
/// fail is part of the contract.
pub fn parse_line(line: &str) -> (res: Result<ConfigEntry, ResolveError>)
    ensures
        match res {
            Ok(ConfigEntry::Device(name)) => device_of_line(line@) == Some(name@)
                && hwaddr_of_line(line@) is None,
            Ok(ConfigEntry::Hwaddr(mac)) => hwaddr_of_line(line@) == Some(mac@) && device_of_line(
                line@,
            ) is None,
            Ok(ConfigEntry::Other) => device_of_line(line@) is None && hwaddr_of_line(line@) is None,
            Err(_) => false,
        },
{
    let v = chars_of(line);
    let key_at: usize = blank_prefix_len(&v);
    let device: [char; 7] = ['D', 'E', 'V', 'I', 'C', 'E', '='];
    let hwaddr: [char; 7] = ['H', 'W', 'A', 'D', 'D', 'R', '='];
    assert(device@ =~= device_key());
    assert(hwaddr@ =~= hwaddr_key());
    if stands_at(&v, key_at, device.as_slice()) {
        assert(!occurs_at(v@, key_at as int, hwaddr_key())) by {
            assert(v@.subrange(key_at as int, key_at + 7)[0] == 'D');
        }
        let from: usize = key_at + 7;
        let end: usize = name_capture_end(&v, from);
        if device_name_in(&v, from, end) {
            match DeviceName::new(line.substring_char(from, end)) {
                Ok(name) => Ok(ConfigEntry::Device(name)),
                Err(_) => Err(ResolveError::MalformedName),
            }
        } else {
            Ok(ConfigEntry::Other)
        }
    } else if stands_at(&v, key_at, hwaddr.as_slice()) {
        let from: usize = key_at + 7;
        if mac_text_at(&v, from) {
            proof {
                lemma_mac_text_window(v@, from as int);
            }
            match normalize(line.substring_char(from, from + 17)) {
                Ok(mac) => Ok(ConfigEntry::Hwaddr(mac)),
                Err(_) => Err(ResolveError::MalformedMac),
            }
        } else {
            Ok(ConfigEntry::Other)
        }
    } else {
        Ok(ConfigEntry::Other)
    }
}

/// The index of the first line feed of `v` at or after `from`.
fn find_line_break(v: &Vec<char>, from: usize) -> (at: usize)
    requires
        from <= v.len(),
    ensures
        at == line_break(v@, from as int),
        from <= at <= v.len(),
{
    let mut at: usize = from;
    while at < v.len() && v[at] != '\n'
        invariant
            from <= at <= v.len(),
            line_break(v@, from as int) == line_break(v@, at as int),
        decreases v.len() - at,
    {
        at += 1;
    }
    at
}

/// Reads a configuration file and gives the device name it declares for the
/// interface with the address `target`.
///
/// Of several `DEVICE=` lines the last one counts, and so for `HWADDR=`. A
/// file that declares no address, or another address than `target`, gives no
/// name, whatever device it declares.
pub fn extract(content: &str, target: &MacAddress) -> (res: Result<
    Option<DeviceName>,
    ResolveError,
>)
    ensures
        match res {
            Ok(Some(name)) => config_name(content@, target@) == Some(name@),
            Ok(None) => config_name(content@, target@) is None,
            Err(_) => false,
        },
        declared_hwaddr(content@) is None ==> res matches Ok(None),
        declared_hwaddr(content@) matches Some(octets) && octets != target@ ==> res matches Ok(
            None,
        ),
{
    let v = chars_of(content);
    let mut device: Option<DeviceName> = None;
    let mut hwaddr: Option<MacAddress> = None;
    let mut start: usize = 0;
    let ghost mut done: Seq<Seq<char>> = Seq::empty();
    assert(done + lines_from(v@, 0) =~= lines_of(v@));
    while start < v.len()
        invariant
            v@ == content@,
            start <= v.len(),
            lines_of(v@) == done + lines_from(v@, start as int),
            last_device(done) == match device {
                Some(name) => Some(name@),
                None => None,
            },
            last_hwaddr(done) == match hwaddr {
                Some(mac) => Some(mac@),
                None => None,
            },
        decreases v.len() - start,
    {
        let at: usize = find_line_break(&v, start);
        let end: usize = if start < at && at < v.len() && v[at - 1] == '\r' {
            at - 1
        } else {
            at
        };
        let next: usize = if at < v.len() {
            at + 1
        } else {
            at
        };
        let ghost line = v@.subrange(start as int, end as int);
        proof {
            assert(lines_from(v@, start as int) =~= seq![line] + lines_from(v@, next as int));
            assert(done.push(line) + lines_from(v@, next as int) =~= done + lines_from(
                v@,
                start as int,
            ));
            assert(done.push(line).drop_last() =~= done);
        }
        match parse_line(content.substring_char(start, end)) {
            Ok(ConfigEntry::Device(name)) => {
                device = Some(name);
            },
            Ok(ConfigEntry::Hwaddr(mac)) => {
                hwaddr = Some(mac);
            },
            Ok(ConfigEntry::Other) => {},
            Err(e) => {
                return Err(e);
            },
        }
        proof {
            done = done.push(line);
        }
        start = next;
    }
    assert(done =~= lines_of(v@));
    match hwaddr {
        Some(mac) => {
            if mac == *target {
                Ok(device)
            } else {
                Ok(None)
            }
        },
        None => Ok(None),
    }
}

/// Whether `line` can stand as a line of a file: it holds no line feed and
/// does not end with a carriage return.
pub open spec fn is_plain_line(line: Seq<char>) -> bool {
    &&& forall|i: int| 0 <= i < line.len() ==> line[i] != '\n'
    &&& line.len() > 0 ==> line.last() != '\r'
}

/// The line break after a stretch without line feeds is where the stretch
/// ends.
proof fn lemma_line_break_at(s: Seq<char>, from: int, at: int)
    requires
        0 <= from <= at <= s.len(),
        forall|i: int| from <= i < at ==> s[i] != '\n',
        at < s.len() ==> s[at] == '\n',
    ensures
        line_break(s, from) == at,
    decreases at - from,
{
    if from < at {
        lemma_line_break_at(s, from + 1, at);
    }
}

/// A name that fills the rest of its line is captured whole.
proof fn lemma_capture_whole_name(s: Seq<char>, from: int, at: int)
    requires
        0 <= from <= at <= s.len(),
        s.len() - from <= MAX_NAME_LEN,
        forall|i: int| from <= i < s.len() ==> s[i] != ':',
    ensures
        capture_end(s, from, at) == s.len(),
    decreases s.len() - at,
{
    if at < s.len() {
        lemma_capture_whole_name(s, from, at + 1);
    }
}

/// A line made of `DEVICE=` and a device name declares that name, and no
/// address.
pub proof fn law_device_line(name: Seq<char>)
    requires
        is_device_name(name),
    ensures
        device_of_line(device_key() + name) == Some(name),
        hwaddr_of_line(device_key() + name) is None,
{
    let line = device_key() + name;
    assert(line[0] == 'D');
    assert(skip_blank(line, 0) == 0);
    assert(line.subrange(0, 7) =~= device_key());
    assert forall|i: int| 7 <= i < line.len() implies line[i] != ':' by {
        assert(line[i] == name[i - 7]);
    }
    lemma_capture_whole_name(line, 7, 7);
    assert(line.subrange(7, line.len() as int) =~= name);
    assert(!occurs_at(line, 0, hwaddr_key())) by {
        assert(line.subrange(0, 7)[0] == 'D');
    }
}

/// A line made of `HWADDR=` and the text of an address declares that
/// address, and no device.
pub proof fn law_hwaddr_line(mac_text: Seq<char>)
    requires
        is_mac_text(mac_text),
    ensures
        hwaddr_of_line(hwaddr_key() + mac_text) == Some(mac_text_octets(mac_text)),
        device_of_line(hwaddr_key() + mac_text) is None,
{
    let line = hwaddr_key() + mac_text;
    assert(line[0] == 'H');
    assert(skip_blank(line, 0) == 0);
    assert(line.subrange(0, 7) =~= hwaddr_key());
    assert(line.subrange(7, 24) =~= mac_text);
    lemma_mac_text_window(line, 7);
    assert(!occurs_at(line, 0, device_key())) by {
        assert(line.subrange(0, 7)[0] == 'H');
    }
}

/// The lines of two plain lines, each followed by a line feed, are these two.
proof fn lemma_lines_of_two(first: Seq<char>, second: Seq<char>)
    requires
        is_plain_line(first),
        is_plain_line(second),
    ensures
        lines_of(first + seq!['\n'] + second + seq!['\n']) == seq![first, second],
{
    let s = first + seq!['\n'] + second + seq!['\n'];
    let a = first.len() as int;
    let b = a + 1 + second.len();
    assert forall|i: int| 0 <= i < a implies s[i] != '\n' by {
        assert(s[i] == first[i]);
    }
    assert forall|i: int| a + 1 <= i < b implies s[i] != '\n' by {
        assert(s[i] == second[i - a - 1]);
    }
    assert(s[a] == '\n');
    assert(s[b] == '\n');
    lemma_line_break_at(s, 0, a);
    lemma_line_break_at(s, a + 1, b);
    if a > 0 {
        assert(s[a - 1] == first.last());
    }
    if second.len() > 0 {
        assert(s[b - 1] == second.last());
    }
    assert(s.subrange(0, a) =~= first);
    assert(s.subrange(a + 1, b) =~= second);
    assert(lines_from(s, b + 1) =~= Seq::<Seq<char>>::empty());
    assert(lines_from(s, a + 1) =~= seq![second]);
    assert(lines_from(s, 0) =~= seq![first, second]);
}

/// A file of one `HWADDR=` line and one `DEVICE=` line, in this order, gives
/// the declared name to the declared address and to no other. The name is
/// one that can stand at the end of a line.
pub proof fn law_binding_file(mac_text: Seq<char>, name: Seq<char>, target: Seq<u8>)
    requires
        is_mac_text(mac_text),
        is_device_name(name),
        is_plain_line(name),
    ensures
        config_name(
            hwaddr_key() + mac_text + seq!['\n'] + device_key() + name + seq!['\n'],
            target,
        ) == if target == mac_text_octets(mac_text) {
            Some(name)
        } else {
            None
        },
{
    let first = hwaddr_key() + mac_text;
    let second = device_key() + name;
    let content = hwaddr_key() + mac_text + seq!['\n'] + device_key() + name + seq!['\n'];
    assert(content =~= first + seq!['\n'] + second + seq!['\n']);
    assert(is_plain_line(first)) by {
        assert forall|i: int| 0 <= i < first.len() implies first[i] != '\n' by {
            if i >= 7 {
                assert(first[i] == mac_text[0 + (i - 7)]);
            }
        }
        assert(first.last() == mac_text[0 + 16int]);
    }
    assert(is_plain_line(second)) by {
        assert forall|i: int| 0 <= i < second.len() implies second[i] != '\n' by {
            if i >= 7 {
                assert(second[i] == name[i - 7]);
            }
        }
        assert(second.last() == name.last());
    }
    lemma_lines_of_two(first, second);
    law_hwaddr_line(mac_text);
    law_device_line(name);
    let lines = seq![first, second];
    assert(lines.last() == second);
    assert(lines.drop_last() =~= seq![first]);
    assert(seq![first].last() == first);
    assert(seq![first].drop_last() =~= Seq::<Seq<char>>::empty());
    reveal_with_fuel(last_device, 3);
    reveal_with_fuel(last_hwaddr, 3);
    assert(last_hwaddr(lines) == Some(mac_text_octets(mac_text)));
    assert(last_device(lines) == Some(name));
}

} // verus!
