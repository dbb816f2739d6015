//! Hardware addresses: their textual shape, their octets and their
//! canonical rendering.
use std::str::FromStr;
use vstd::prelude::*;
use crate::error::ResolveError;
use crate::text::chars_of;

verus! {

/// Whether `c` is one of `0-9`, `a-f`, `A-F`.
pub open spec fn is_hex_digit(c: char) -> bool {
    ('0' <= c && c <= '9') || ('a' <= c && c <= 'f') || ('A' <= c && c <= 'F')
}

/// The number that the hexadecimal digit `c` stands for.
pub open spec fn hex_value(c: char) -> int {
    if '0' <= c && c <= '9' {
        c as int - '0' as int
    } else if 'a' <= c && c <= 'f' {
        c as int - 'a' as int + 10
    } else {
        c as int - 'A' as int + 10
    }
}

/// Whether the 17 characters of `s` from `pos` on are six groups of two
/// hexadecimal digits separated by `:`.
pub open spec fn is_mac_text_at(s: Seq<char>, pos: int) -> bool {
    &&& 0 <= pos
    &&& pos + 17 <= s.len()
    &&& forall|k: int|
        0 <= k < 17 ==> if k % 3 == 2 {
            #[trigger] s[pos + k] == ':'
        } else {
            is_hex_digit(s[pos + k])
        }
}

/// Whether `s` is, as a whole, the text of a hardware address.
pub open spec fn is_mac_text(s: Seq<char>) -> bool {
    s.len() == 17 && is_mac_text_at(s, 0)
}

/// The value of the `i`-th group of the address text that starts at `pos`.
pub open spec fn octet_at(s: Seq<char>, pos: int, i: int) -> u8 {
    (16 * hex_value(s[pos + 3 * i]) + hex_value(s[pos + 3 * i + 1])) as u8
}

/// The six octets written by the address text that starts at `pos`.
pub open spec fn octets_at(s: Seq<char>, pos: int) -> Seq<u8> {
    Seq::new(6, |i: int| octet_at(s, pos, i))
}

/// The six octets written by the address text `s`.
pub open spec fn mac_text_octets(s: Seq<char>) -> Seq<u8> {
    octets_at(s, 0)
}

/// The lowercase hexadecimal digit for `n`, which is below 16.
pub open spec fn lower_hex_char(n: int) -> char {
    if n < 10 {
        ('0' as int + n) as char
    } else {
        ('a' as int + n - 10) as char
    }
}

/// The uppercase hexadecimal digit for `n`, which is below 16.
pub open spec fn upper_hex_char(n: int) -> char {
    if n < 10 {
        ('0' as int + n) as char
    } else {
        ('A' as int + n - 10) as char
    }
}

/// The canonical text of an address: its six octets as lowercase hexadecimal
/// pairs joined by `:`.
pub open spec fn canonical_text(octets: Seq<u8>) -> Seq<char> {
    Seq::new(
        17,
        |k: int|
            if k % 3 == 2 {
                ':'
            } else if k % 3 == 0 {
                lower_hex_char(octets[k / 3] as int / 16)
            } else {
                lower_hex_char(octets[k / 3] as int % 16)
            },
    )
}

/// The six octets as uppercase hexadecimal pairs joined by `:`.
pub open spec fn upper_text(octets: Seq<u8>) -> Seq<char> {
    Seq::new(
        17,
        |k: int|
            if k % 3 == 2 {
                ':'
            } else if k % 3 == 0 {
                upper_hex_char(octets[k / 3] as int / 16)
            } else {
                upper_hex_char(octets[k / 3] as int % 16)
            },
    )
}

/// `c` with `A-Z` mapped to `a-z`.
pub open spec fn ascii_lower(c: char) -> char {
    if 'A' <= c && c <= 'Z' {
        (c as int + 32) as char
    } else {
        c
    }
}

/// `s` with every character mapped by [`ascii_lower`].
pub open spec fn ascii_lowercase(s: Seq<char>) -> Seq<char> {
    Seq::new(s.len(), |i: int| ascii_lower(s[i]))
}

/// What [`normalize`] followed by rendering makes of an address text.
pub open spec fn normalized_text(s: Seq<char>) -> Seq<char> {
    canonical_text(mac_text_octets(s))
}

/// A 48-bit hardware address.
#[derive(Clone, Copy, Debug, Eq)]
pub struct MacAddress {
    octets: [u8; 6],
}

impl View for MacAddress {
    type V = Seq<u8>;

    closed spec fn view(&self) -> Seq<u8> {
        self.octets@
    }
}

/// The error of `mac_address::MacAddress::from_str`, carried through unread.
#[verifier::external_type_specification]
#[verifier::external_body]
pub struct ExMacParseError(mac_address::MacParseError);

/// Parses `text` with `mac_address::MacAddress::from_str` and hands out the
/// bytes of the address it built.
///
/// Trusted: for a text of six two-digit hexadecimal groups separated by `:`
/// the outside parser succeeds, and byte `i` is the value of group `i`.
/// Nothing is claimed for any other text.
#[verifier::external_body]
fn parse_octets(text: &str) -> (res: Result<[u8; 6], mac_address::MacParseError>)
    ensures
        is_mac_text(text@) ==> res is Ok,
        is_mac_text(text@) ==> res->Ok_0@ == mac_text_octets(text@),
{
    match mac_address::MacAddress::from_str(text) {
        Ok(mac) => Ok(mac.bytes()),
        Err(e) => Err(e),
    }
}

/// Renders the octets with the `Display` of `mac_address::MacAddress`.
///
/// Trusted: that rendering is six two-digit uppercase hexadecimal numbers,
/// zero-padded, joined by `:`.
#[verifier::external_body]
fn render_upper(octets: [u8; 6]) -> (text: String)
    ensures
        text@ == upper_text(octets@),
{
    mac_address::MacAddress::new(octets).to_string()
}

/// `str::to_ascii_lowercase` maps `A-Z` to `a-z` and keeps every other
/// character.
pub assume_specification[ str::to_ascii_lowercase ](s: &str) -> (lower: String)
    ensures
        lower@ == ascii_lowercase(s@),
;

/// Whether the characters of `v` from `pos` on spell a hardware address.
pub fn mac_text_at(v: &Vec<char>, pos: usize) -> (b: bool)
    ensures
        b == is_mac_text_at(v@, pos as int),
{
    if v.len() < 17 || pos > v.len() - 17 {
        return false;
    }
    let mut k: usize = 0;
    while k < 17
        invariant
            k <= 17,
            pos + 17 <= v.len(),
            forall|j: int|
                0 <= j < k ==> if j % 3 == 2 {
                    #[trigger] v@[pos + j] == ':'
                } else {
                    is_hex_digit(v@[pos + j])
                },
        decreases 17 - k,
    {
        let c = v[pos + k];
        let fits = if k % 3 == 2 {
            c == ':'
        } else {
            (c >= '0' && c <= '9') || (c >= 'a' && c <= 'f') || (c >= 'A' && c <= 'F')
        };
        if !fits {
            assert(!is_mac_text_at(v@, pos as int)) by {
                let _ = v@[pos + k];
            }
            return false;
        }
        k += 1;
    }
    true
}

impl MacAddress {
    /// The address with the given octets.
    pub fn from_octets(octets: [u8; 6]) -> (mac: MacAddress)
        ensures
            mac@ == octets@,
    {
        MacAddress { octets }
    }

    /// The six octets of the address.
    pub fn octets(&self) -> (octets: [u8; 6])
        ensures
            octets@ == self@,
    {
        self.octets
    }

    /// The canonical text of the address: lowercase hexadecimal pairs
    /// joined by `:`.
    pub fn to_canonical_string(&self) -> (text: String)
        ensures
            text@ == canonical_text(self@),
    {
        let upper = render_upper(self.octets);
        let lower = upper.as_str().to_ascii_lowercase();
        proof {
            lemma_lowercase_of_upper_text(self@);
        }
        lower
    }

    /// Every address has six octets.
    pub proof fn lemma_six_octets(self)
        ensures
            self@.len() == 6,
    {
    }
}

impl PartialEq for MacAddress {
    fn eq(&self, other: &MacAddress) -> (b: bool) {
        let b = self.octets[0] == other.octets[0] && self.octets[1] == other.octets[1]
            && self.octets[2] == other.octets[2] && self.octets[3] == other.octets[3]
            && self.octets[4] == other.octets[4] && self.octets[5] == other.octets[5];
        assert(b == (self@ =~= other@));
        b
    }
}

impl vstd::std_specs::cmp::PartialEqSpecImpl for MacAddress {
    open spec fn obeys_eq_spec() -> bool {
        true
    }

    open spec fn eq_spec(&self, other: &MacAddress) -> bool {
        self@ == other@
    }
}

/// Lowercasing the uppercase rendering gives the canonical text.
proof fn lemma_lowercase_of_upper_text(octets: Seq<u8>)
    requires
        octets.len() == 6,
    ensures
        ascii_lowercase(upper_text(octets)) == canonical_text(octets),
{
    assert forall|k: int| 0 <= k < 17 implies ascii_lower(#[trigger] upper_text(octets)[k])
        == canonical_text(octets)[k] by {
        let o = octets[k / 3] as int;
        assert(0 <= o / 16 < 16 && 0 <= o % 16 < 16);
    }
    assert(ascii_lowercase(upper_text(octets)) =~= canonical_text(octets));
}

/// Parses the text of a hardware address.
///
/// Succeeds exactly on six groups of two hexadecimal digits, of either case,
/// separated by `:`.
pub fn normalize(raw: &str) -> (res: Result<MacAddress, ResolveError>)
    ensures
        res is Ok <==> is_mac_text(raw@),
        res matches Ok(mac) ==> mac@ == mac_text_octets(raw@),
        res matches Err(e) ==> e == ResolveError::InvalidMacFormat,
{
    let chars = chars_of(raw);
    if chars.len() != 17 || !mac_text_at(&chars, 0) {
        return Err(ResolveError::InvalidMacFormat);
    }
    match parse_octets(raw) {
        Ok(octets) => Ok(MacAddress { octets }),
        Err(_) => Err(ResolveError::InvalidMacFormat),
    }
}

/// An address text inside a longer text can be cut out and read on its own.
pub proof fn lemma_mac_text_window(s: Seq<char>, pos: int)
    requires
        0 <= pos,
        pos + 17 <= s.len(),
    ensures
        is_mac_text(s.subrange(pos, pos + 17)) == is_mac_text_at(s, pos),
        mac_text_octets(s.subrange(pos, pos + 17)) == octets_at(s, pos),
{
    let w = s.subrange(pos, pos + 17);
    assert forall|k: int| 0 <= k < 17 implies #[trigger] w[0 + k] == s[pos + k] by {}
    if is_mac_text_at(s, pos) {
        assert forall|k: int| 0 <= k < 17 implies if k % 3 == 2 {
            #[trigger] w[0 + k] == ':'
        } else {
            is_hex_digit(w[0 + k])
        } by {
            let _ = s[pos + k];
        }
    }
    if is_mac_text(w) {
        assert forall|k: int| 0 <= k < 17 implies if k % 3 == 2 {
            #[trigger] s[pos + k] == ':'
        } else {
            is_hex_digit(s[pos + k])
        } by {
            let _ = w[0 + k];
        }
    }
    assert forall|i: int| 0 <= i < 6 implies #[trigger] mac_text_octets(w)[i] == octets_at(s, pos)[i] by {
        assert(w[0 + 3 * i] == s[pos + 3 * i]);
        assert(w[0 + 3 * i + 1] == s[pos + 3 * i + 1]);
    }
    assert(mac_text_octets(w) =~= octets_at(s, pos));
}

/// A lowercase hexadecimal digit is a hexadecimal digit, and stands for the
/// number it was made from.
proof fn lemma_lower_hex_char(n: int)
    requires
        0 <= n < 16,
    ensures
        is_hex_digit(lower_hex_char(n)),
        hex_value(lower_hex_char(n)) == n,
        ascii_lower(lower_hex_char(n)) == lower_hex_char(n),
{
}

/// Lowercasing a hexadecimal digit keeps its value, and gives the lowercase
/// digit of that value.
proof fn lemma_hex_digit_lowercase(c: char)
    requires
        is_hex_digit(c),
    ensures
        0 <= hex_value(c) < 16,
        ascii_lower(c) == lower_hex_char(hex_value(c)),
{
}

/// Rendering an address and parsing the text gives the address back.
pub proof fn law_canonical_text_round_trip(octets: Seq<u8>)
    requires
        octets.len() == 6,
    ensures
        is_mac_text(canonical_text(octets)),
        mac_text_octets(canonical_text(octets)) == octets,
{
    let text = canonical_text(octets);
    assert forall|k: int| 0 <= k < 17 implies if k % 3 == 2 {
        #[trigger] text[0 + k] == ':'
    } else {
        is_hex_digit(text[0 + k])
    } by {
        let o = octets[k / 3] as int;
        lemma_lower_hex_char(o / 16);
        lemma_lower_hex_char(o % 16);
    }
    assert forall|i: int| 0 <= i < 6 implies #[trigger] mac_text_octets(text)[i] == octets[i] by {
        let o = octets[i] as int;
        lemma_lower_hex_char(o / 16);
        lemma_lower_hex_char(o % 16);
        assert(text[0 + 3 * i] == lower_hex_char(o / 16));
        assert(text[0 + 3 * i + 1] == lower_hex_char(o % 16));
    }
    assert(mac_text_octets(text) =~= octets);
}

/// The canonical text of a parsed address is the input in lowercase.
pub proof fn law_normalized_text_is_lowercase(s: Seq<char>)
    requires
        is_mac_text(s),
    ensures
        normalized_text(s) == ascii_lowercase(s),
{
    let octets = mac_text_octets(s);
    assert forall|k: int| 0 <= k < 17 implies #[trigger] normalized_text(s)[k] == ascii_lower(
        s[k],
    ) by {
        let i = k / 3;
        let _ = s[0 + k];
        let _ = s[0 + 3 * i];
        let _ = s[0 + (3 * i + 1)];
        lemma_hex_digit_lowercase(s[0 + 3 * i]);
        lemma_hex_digit_lowercase(s[0 + 3 * i + 1]);
        let hi = hex_value(s[0 + 3 * i]);
        let lo = hex_value(s[0 + 3 * i + 1]);
        assert(octets[i] == (16 * hi + lo) as u8);
        assert((16 * hi + lo) / 16 == hi && (16 * hi + lo) % 16 == lo);
    }
    assert(normalized_text(s) =~= ascii_lowercase(s));
}

/// Normalizing is idempotent: the canonical text of an address text is itself
/// an address text, it writes the same octets, and normalizing it again
/// changes nothing.
pub proof fn law_normalize_idempotent(s: Seq<char>)
    requires
        is_mac_text(s),
    ensures
        is_mac_text(normalized_text(s)),
        mac_text_octets(normalized_text(s)) == mac_text_octets(s),
        normalized_text(normalized_text(s)) == normalized_text(s),
{
    law_canonical_text_round_trip(mac_text_octets(s));
}

/// Two addresses are equal exactly when their canonical texts are equal.
pub proof fn law_equal_by_canonical_text(a: Seq<u8>, b: Seq<u8>)
    requires
        a.len() == 6,
        b.len() == 6,
    ensures
        canonical_text(a) == canonical_text(b) <==> a == b,
{
    law_canonical_text_round_trip(a);
    law_canonical_text_round_trip(b);
}

/// Two address texts write the same octets exactly when they are equal up to
/// the case of their hexadecimal digits.
pub proof fn law_octets_ignore_case(s: Seq<char>, t: Seq<char>)
    requires
        is_mac_text(s),
        is_mac_text(t),
    ensures
        mac_text_octets(s) == mac_text_octets(t) <==> ascii_lowercase(s) == ascii_lowercase(t),
{
    law_normalized_text_is_lowercase(s);
    law_normalized_text_is_lowercase(t);
    law_equal_by_canonical_text(mac_text_octets(s), mac_text_octets(t));
}

} // verus!
