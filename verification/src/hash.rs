//! Path hashes: 40-bit identifiers of path and name strings.

use vstd::prelude::*;

verus! {

/// What `smash_arc::hash40` makes of `text`.
pub uninterp spec fn hash40_of(text: Seq<char>) -> u64;

/// What `hash40::Hash40::concat` makes of the hashes `first` and `second`.
pub uninterp spec fn hash40_concat(first: u64, second: u64) -> u64;

/// Calls `smash_arc::hash40`. The result is taken as given and named
/// `hash40_of`; it depends on the text alone.
#[verifier::external_body]
fn hash_text(text: &str) -> (h: u64)
    ensures
        h == hash40_of(text@),
{
    smash_arc::hash40(text).0
}

/// Calls `hash40::Hash40::concat`, which joins two hashes without their
/// texts; `smash_arc` hashes whole texts only, so the crate `hash40` is used
/// for this one call. The result is taken as given and named `hash40_concat`:
/// all that is claimed of it is that it depends on the two hashes alone.
#[verifier::external_body]
fn concat_hashes(first: u64, second: u64) -> (h: u64)
    ensures
        h == hash40_concat(first, second),
{
    hash40::Hash40(first).concat(hash40::Hash40(second)).0
}

/// The hash of `parent`, a `/` and `child` joined into one path.
pub open spec fn hash40_join(parent: u64, child: u64) -> u64 {
    hash40_concat(hash40_concat(parent, hash40_of("/"@)), child)
}

/// Identifies a path or a name by its content.
#[derive(Clone, Copy, Debug, PartialEq, Eq, Structural, Hash)]
pub struct PathHash(pub u64);

impl PathHash {
    /// The hash of `text`.
    pub fn new(text: &str) -> (h: PathHash)
        ensures
            h.0 == hash40_of(text@),
    {
        PathHash(hash_text(text))
    }

    /// The hash of this path directly followed by `other`.
    pub fn concat(self, other: PathHash) -> (h: PathHash)
        ensures
            h.0 == hash40_concat(self.0, other.0),
    {
        PathHash(concat_hashes(self.0, other.0))
    }

    /// The hash of this path, a `/`, and `other`.
    pub fn join_path(self, other: PathHash) -> (h: PathHash)
        ensures
            h.0 == hash40_join(self.0, other.0),
    {
        self.concat(PathHash::new("/")).concat(other)
    }
}

/// The text of the decimal digit `d`.
pub open spec fn digit_text(d: int) -> Seq<char> {
    if d == 0 {
        "0"@
    } else if d == 1 {
        "1"@
    } else if d == 2 {
        "2"@
    } else if d == 3 {
        "3"@
    } else if d == 4 {
        "4"@
    } else if d == 5 {
        "5"@
    } else if d == 6 {
        "6"@
    } else if d == 7 {
        "7"@
    } else if d == 8 {
        "8"@
    } else {
        "9"@
    }
}

/// The decimal text of `n`.
pub open spec fn decimal_text(n: nat) -> Seq<char>
    decreases n,
{
    if n < 10 {
        digit_text(n as int)
    } else {
        decimal_text(n / 10) + digit_text((n % 10) as int)
    }
}

/// The decimal text of `n` with at least two digits: `07`, `42`, `123`.
pub open spec fn ordinal_text(n: nat) -> Seq<char> {
    if n < 10 {
        "0"@ + digit_text(n as int)
    } else {
        decimal_text(n)
    }
}

/// The text of the decimal digit `d`.
pub fn digit(d: usize) -> (text: &'static str)
    requires
        d < 10,
    ensures
        text@ == digit_text(d as int),
{
    if d == 0 {
        "0"
    } else if d == 1 {
        "1"
    } else if d == 2 {
        "2"
    } else if d == 3 {
        "3"
    } else if d == 4 {
        "4"
    } else if d == 5 {
        "5"
    } else if d == 6 {
        "6"
    } else if d == 7 {
        "7"
    } else if d == 8 {
        "8"
    } else {
        "9"
    }
}

/// Appends the decimal text of `n` to `text`.
pub fn push_decimal(text: &mut String, n: usize)
    ensures
        final(text)@ == old(text)@ + decimal_text(n as nat),
    decreases n,
{
    if n >= 10 {
        push_decimal(text, n / 10);
    }
    text.append(digit(n % 10));
}

/// The hash of `prefix`, the ordinal `n` in at least two digits, and `suffix`
/// as one text: `numbered("normal_s", 7, "")` is the hash of `normal_s07`.
pub fn numbered(prefix: &str, n: usize, suffix: &str) -> (h: PathHash)
    ensures
        h.0 == hash40_of(prefix@ + ordinal_text(n as nat) + suffix@),
{
    let mut text = String::from_str(prefix);
    if n < 10 {
        text.append("0");
    }
    push_decimal(&mut text, n);
    proof {
        assert(text@ =~= prefix@ + ordinal_text(n as nat));
    }
    text.append(suffix);
    PathHash::new(text.as_str())
}

/// The text of the hexadecimal digit `d`.
pub open spec fn hex_digit_text(d: int) -> Seq<char> {
    if d < 10 {
        digit_text(d)
    } else if d == 10 {
        "a"@
    } else if d == 11 {
        "b"@
    } else if d == 12 {
        "c"@
    } else if d == 13 {
        "d"@
    } else if d == 14 {
        "e"@
    } else {
        "f"@
    }
}

/// The hexadecimal text of `n`, in lower case and without leading zeros.
pub open spec fn hex_text(n: nat) -> Seq<char>
    decreases n,
{
    if n < 16 {
        hex_digit_text(n as int)
    } else {
        hex_text(n / 16) + hex_digit_text((n % 16) as int)
    }
}

/// The text of the hexadecimal digit `d`.
pub fn hex_digit(d: u64) -> (text: &'static str)
    requires
        d < 16,
    ensures
        text@ == hex_digit_text(d as int),
{
    if d < 10 {
        digit(d as usize)
    } else if d == 10 {
        "a"
    } else if d == 11 {
        "b"
    } else if d == 12 {
        "c"
    } else if d == 13 {
        "d"
    } else if d == 14 {
        "e"
    } else {
        "f"
    }
}

/// Appends the hexadecimal text of `n` to `text`.
pub fn push_hex(text: &mut String, n: u64)
    ensures
        final(text)@ == old(text)@ + hex_text(n as nat),
    decreases n,
{
    if n >= 16 {
        push_hex(text, n / 16);
    }
    text.append(hex_digit(n % 16));
}

} // verus!
