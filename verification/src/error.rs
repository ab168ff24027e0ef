//! The ways in which building or extending a registry can fail.

use vstd::prelude::*;
use vstd::string::StringExecFns;

verus! {

/// A validation failure.  Each is returned to the caller at once; nothing
/// is repaired on the way.
#[derive(Clone, Debug, PartialEq, Eq)]
pub enum RegistryError {
    /// A path is empty.
    EmptyPath,
    /// A path is defined twice.
    DuplicatePath { path: String },
    /// A definition names a parent that no definition has as its path.
    MissingParent { path: String, parent: String },
    /// A path lies deeper than the layout has levels.
    DepthExceeded { path: String },
    /// A definition cannot be reached from any root.
    Disconnected,
    /// Two different paths stand for the same identifier.
    Collision { path: String, existing: String, gid: u128 },
}

/// What an error says, with the text of its paths.
pub enum ErrorView {
    EmptyPath,
    DuplicatePath { path: Seq<char> },
    MissingParent { path: Seq<char>, parent: Seq<char> },
    DepthExceeded { path: Seq<char> },
    Disconnected,
    Collision { path: Seq<char>, existing: Seq<char>, gid: u128 },
}

impl View for RegistryError {
    type V = ErrorView;

    open spec fn view(&self) -> ErrorView {
        match self {
            RegistryError::EmptyPath => ErrorView::EmptyPath,
            RegistryError::DuplicatePath { path } => ErrorView::DuplicatePath { path: path@ },
            RegistryError::MissingParent { path, parent } => ErrorView::MissingParent {
                path: path@,
                parent: parent@,
            },
            RegistryError::DepthExceeded { path } => ErrorView::DepthExceeded { path: path@ },
            RegistryError::Disconnected => ErrorView::Disconnected,
            RegistryError::Collision { path, existing, gid } => ErrorView::Collision {
                path: path@,
                existing: existing@,
                gid: *gid,
            },
        }
    }
}

/// The hexadecimal digit of a number below sixteen.
pub open spec fn digit_text(nibble: u128) -> Seq<char> {
    if nibble == 0 {
        "0"@
    } else if nibble == 1 {
        "1"@
    } else if nibble == 2 {
        "2"@
    } else if nibble == 3 {
        "3"@
    } else if nibble == 4 {
        "4"@
    } else if nibble == 5 {
        "5"@
    } else if nibble == 6 {
        "6"@
    } else if nibble == 7 {
        "7"@
    } else if nibble == 8 {
        "8"@
    } else if nibble == 9 {
        "9"@
    } else if nibble == 10 {
        "a"@
    } else if nibble == 11 {
        "b"@
    } else if nibble == 12 {
        "c"@
    } else if nibble == 13 {
        "d"@
    } else if nibble == 14 {
        "e"@
    } else {
        "f"@
    }
}

/// The last `count` hexadecimal digits of `value`.
pub open spec fn hex_digits(value: u128, count: nat) -> Seq<char>
    decreases count,
{
    if count == 0 {
        Seq::empty()
    } else {
        hex_digits(value / 16, (count - 1) as nat) + digit_text(value % 16)
    }
}

/// An identifier as text: `0x` and thirty-two hexadecimal digits.
pub open spec fn gid_text(gid: u128) -> Seq<char> {
    "0x"@ + hex_digits(gid, 32)
}

/// What an error says in words.
pub open spec fn message_text(e: ErrorView) -> Seq<char> {
    match e {
        ErrorView::EmptyPath => "empty path is not allowed"@,
        ErrorView::DuplicatePath { path } => "duplicate namespace path: "@ + path,
        ErrorView::MissingParent { path, parent } => "missing parent for '"@ + path + "': '"@
            + parent + "'"@,
        ErrorView::DepthExceeded { path } => "tree depth exceeds maximum (8) at path '"@ + path
            + "'"@,
        ErrorView::Disconnected => "disconnected tree: some nodes are unreachable from roots"@,
        ErrorView::Collision { path, existing, gid } => "GID collision: '"@ + path + "' and '"@
            + existing + "' produce the same hierarchical hash "@ + gid_text(gid)
            + ". Consider renaming one of them."@,
    }
}

/// The hexadecimal digit of a number below sixteen.
fn digit_str(nibble: u128) -> (text: &'static str)
    requires
        nibble < 16,
    ensures
        text@ == digit_text(nibble),
{
    if nibble == 0 {
        "0"
    } else if nibble == 1 {
        "1"
    } else if nibble == 2 {
        "2"
    } else if nibble == 3 {
        "3"
    } else if nibble == 4 {
        "4"
    } else if nibble == 5 {
        "5"
    } else if nibble == 6 {
        "6"
    } else if nibble == 7 {
        "7"
    } else if nibble == 8 {
        "8"
    } else if nibble == 9 {
        "9"
    } else if nibble == 10 {
        "a"
    } else if nibble == 11 {
        "b"
    } else if nibble == 12 {
        "c"
    } else if nibble == 13 {
        "d"
    } else if nibble == 14 {
        "e"
    } else {
        "f"
    }
}

/// Writes an identifier as `0x` and thirty-two hexadecimal digits.
pub fn gid_to_text(gid: u128) -> (text: String)
    ensures
        text@ == gid_text(gid),
{
    let mut digits: Vec<&'static str> = Vec::new();
    let mut rest: u128 = gid;
    let mut n: usize = 0;
    while n < 32
        invariant
            n <= 32,
            digits@.len() == n,
            forall|m: nat|
                hex_digits(gid, n as nat + m) == hex_digits(rest, m) + joined(
                    digits@,
                    n as int,
                ),
        decreases 32 - n,
    {
        let ghost before = digits@;
        let ghost old_rest = rest;
        digits.push(digit_str(rest % 16));
        rest = rest / 16;
        proof {
            assert forall|m: nat|
                hex_digits(gid, (n + 1) as nat + m) == hex_digits(rest, m) + joined(
                    digits@,
                    n + 1,
                ) by {
                assert(hex_digits(gid, n as nat + (m + 1)) == hex_digits(old_rest, m + 1) + joined(
                    before,
                    n as int,
                ));
                assert(joined(digits@, n as int) == joined(before, n as int)) by {
                    lemma_joined_prefix(before, digits@, n as int);
                }
                assert(hex_digits(old_rest, m + 1) == hex_digits(rest, m) + digit_text(
                    old_rest % 16,
                ));
                assert(joined(digits@, n + 1) == digits@[n as int]@ + joined(digits@, n as int));
                assert(hex_digits(rest, m) + digit_text(old_rest % 16) + joined(before, n as int)
                    =~= hex_digits(rest, m) + (digit_text(old_rest % 16) + joined(
                    before,
                    n as int,
                )));
            }
        }
        n += 1;
    }
    let mut text: String = String::from_str("0x");
    let mut k: usize = 32;
    while k > 0
        invariant
            k <= 32,
            digits@.len() == 32,
            text@ + joined(digits@, k as int) == "0x"@ + joined(digits@, 32),
        decreases k,
    {
        k -= 1;
        let ghost before = text@;
        text.append(digits[k]);
        proof {
            assert(joined(digits@, k + 1) == digits@[k as int]@ + joined(digits@, k as int));
            assert(before + digits@[k as int]@ + joined(digits@, k as int) =~= before + (
            digits@[k as int]@ + joined(digits@, k as int)));
        }
    }
    proof {
        assert(hex_digits(gid, 32nat + 0nat) == hex_digits(rest, 0) + joined(digits@, 32));
        assert(hex_digits(rest, 0) + joined(digits@, 32) =~= joined(digits@, 32));
        assert(text@ + joined(digits@, 0) =~= text@);
    }
    text
}

/// The first `n` pieces put together, the last of them first.
pub open spec fn joined(pieces: Seq<&'static str>, n: int) -> Seq<char>
    decreases n,
{
    if n <= 0 {
        Seq::empty()
    } else {
        pieces[n - 1]@ + joined(pieces, n - 1)
    }
}

/// Joining looks at the first `n` pieces only.
proof fn lemma_joined_prefix(a: Seq<&'static str>, b: Seq<&'static str>, n: int)
    requires
        0 <= n <= a.len(),
        n <= b.len(),
        forall|i: int| 0 <= i < n ==> a[i] == b[i],
    ensures
        joined(a, n) == joined(b, n),
    decreases n,
{
    if n > 0 {
        lemma_joined_prefix(a, b, n - 1);
    }
}

impl RegistryError {
    /// Describes the error in words, naming the paths it is about.
    pub fn message(&self) -> (text: String)
        ensures
            text@ == message_text(self@),
    {
        match self {
            RegistryError::EmptyPath => String::from_str("empty path is not allowed"),
            RegistryError::DuplicatePath { path } => String::from_str(
                "duplicate namespace path: ",
            ).concat(path.as_str()),
            RegistryError::MissingParent { path, parent } => String::from_str(
                "missing parent for '",
            ).concat(path.as_str()).concat("': '").concat(parent.as_str()).concat("'"),
            RegistryError::DepthExceeded { path } => String::from_str(
                "tree depth exceeds maximum (8) at path '",
            ).concat(path.as_str()).concat("'"),
            RegistryError::Disconnected => String::from_str(
                "disconnected tree: some nodes are unreachable from roots",
            ),
            RegistryError::Collision { path, existing, gid } => {
                let hex: String = gid_to_text(*gid);
                String::from_str("GID collision: '").concat(path.as_str()).concat(
                    "' and '",
                ).concat(existing.as_str()).concat(
                    "' produce the same hierarchical hash ",
                ).concat(hex.as_str()).concat(". Consider renaming one of them.")
            },
        }
    }
}

} // verus!
