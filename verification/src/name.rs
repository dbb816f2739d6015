//! Device names: what counts as one, and which ones look kernel-assigned.
use vstd::prelude::*;
use crate::error::ResolveError;
use crate::text::{chars_of, is_whitespace, whitespace};

verus! {

/// The most characters a device name may have.
pub const MAX_NAME_LEN: usize = 15;

/// Whether `s` is a device name: 1 to 15 characters, none of them `:`, the
/// first not whitespace.
pub open spec fn is_device_name(s: Seq<char>) -> bool {
    &&& 1 <= s.len() <= MAX_NAME_LEN
    &&& !is_whitespace(s[0])
    &&& forall|i: int| 0 <= i < s.len() ==> s[i] != ':'
}

/// Whether `c` is one of `0-9`.
pub open spec fn is_decimal_digit(c: char) -> bool {
    '0' <= c && c <= '9'
}

/// Whether `s` is `eth` followed by one or more decimal digits and nothing
/// else, as the kernel names interfaces.
pub open spec fn is_kernel_style_name(s: Seq<char>) -> bool {
    &&& s.len() >= 4
    &&& s[0] == 'e'
    &&& s[1] == 't'
    &&& s[2] == 'h'
    &&& forall|i: int| 3 <= i < s.len() ==> is_decimal_digit(s[i])
}

/// Whether the characters of `v` from `from` up to `to` are a device name.
pub fn device_name_in(v: &Vec<char>, from: usize, to: usize) -> (b: bool)
    requires
        from <= to <= v.len(),
    ensures
        b == is_device_name(v@.subrange(from as int, to as int)),
{
    let ghost s = v@.subrange(from as int, to as int);
    if to - from < 1 || to - from > MAX_NAME_LEN {
        return false;
    }
    if whitespace(v[from]) {
        assert(s[0] == v@[from as int]);
        return false;
    }
    let mut k: usize = from;
    while k < to
        invariant
            from <= k <= to <= v.len(),
            s == v@.subrange(from as int, to as int),
            forall|i: int| 0 <= i < k - from ==> s[i] != ':',
        decreases to - k,
    {
        if v[k] == ':' {
            assert(s[k - from] == ':');
            return false;
        }
        k += 1;
    }
    assert(s[0] == v@[from as int]);
    true
}

/// A device name that has been checked.
#[derive(Debug)]
pub struct DeviceName {
    text: String,
}

impl View for DeviceName {
    type V = Seq<char>;

    closed spec fn view(&self) -> Seq<char> {
        self.text@
    }
}

impl DeviceName {
    #[verifier::type_invariant]
    spec fn well_formed(self) -> bool {
        is_device_name(self.text@)
    }

    /// Checks `text` and keeps it as a device name.
    pub fn new(text: &str) -> (res: Result<DeviceName, ResolveError>)
        ensures
            res is Ok <==> is_device_name(text@),
            res matches Ok(name) ==> name@ == text@,
            res matches Err(e) ==> e == ResolveError::MalformedName,
    {
        let chars = chars_of(text);
        assert(chars@.subrange(0, chars@.len() as int) =~= text@);
        if device_name_in(&chars, 0, chars.len()) {
            Ok(DeviceName { text: text.to_owned() })
        } else {
            Err(ResolveError::MalformedName)
        }
    }

    /// The name as text. It always satisfies [`is_device_name`].
    pub fn as_str(&self) -> (text: &str)
        ensures
            text@ == self@,
            is_device_name(text@),
    {
        proof {
            use_type_invariant(self);
        }
        self.text.as_str()
    }

    /// Whether the name looks like one the kernel assigns (`eth0`, `eth12`).
    pub fn is_kernel_style(&self) -> (b: bool)
        ensures
            b == is_kernel_style_name(self@),
    {
        is_kernel_style(self.text.as_str())
    }
}

impl Clone for DeviceName {
    fn clone(&self) -> (copy: DeviceName)
        ensures
            copy@ == self@,
    {
        proof {
            use_type_invariant(self);
        }
        DeviceName { text: self.text.clone() }
    }
}

impl PartialEq for DeviceName {
    fn eq(&self, other: &DeviceName) -> (b: bool) {
        self.text == other.text
    }
}

impl vstd::std_specs::cmp::PartialEqSpecImpl for DeviceName {
    open spec fn obeys_eq_spec() -> bool {
        true
    }

    open spec fn eq_spec(&self, other: &DeviceName) -> bool {
        self@ == other@
    }
}

/// Whether `name` looks like a name the kernel assigns: `eth` followed by one
/// or more decimal digits and nothing else.
pub fn is_kernel_style(name: &str) -> (b: bool)
    ensures
        b == is_kernel_style_name(name@),
{
    let chars = chars_of(name);
    if chars.len() < 4 || chars[0] != 'e' || chars[1] != 't' || chars[2] != 'h' {
        return false;
    }
    let mut k: usize = 3;
    while k < chars.len()
        invariant
            3 <= k <= chars.len(),
            chars@ == name@,
            forall|i: int| 3 <= i < k ==> is_decimal_digit(chars@[i]),
        decreases chars.len() - k,
    {
        let c = chars[k];
        if !(c >= '0' && c <= '9') {
            return false;
        }
        k += 1;
    }
    true
}

} // verus!
