//! The listing order: what it reads of an entry and how two entries
//! compare.

use crate::text::{
    bytes_lt, common_prefix_len, lemma_bytes_lt_asymmetric, lemma_bytes_lt_total,
    lemma_bytes_lt_transitive, lemma_bytes_not_behind_transitive, lemma_mismatch,
    lemma_mismatch_symmetric,
};
use std::cmp::Ordering;
use vstd::prelude::*;

verus! {

/// What the listing order reads of an entry. Extension and name are in
/// folded form: lower-cased and encoded, so that they compare byte by
/// byte.
#[derive(Debug)]
pub struct SortKey {
    /// Whether the entry is a directory.
    pub directory: bool,
    /// Whether the entry is hidden.
    pub hidden: bool,
    /// The folded extension of the entry's name, if the name has one.
    pub extension: Option<Vec<u8>>,
    /// The folded name of the entry.
    pub name: Vec<u8>,
}

/// A sort key as the contracts see it.
pub struct KeyView {
    pub directory: bool,
    pub hidden: bool,
    pub extension: Option<Seq<u8>>,
    pub name: Seq<u8>,
}

impl View for SortKey {
    type V = KeyView;

    open spec fn view(&self) -> KeyView {
        KeyView {
            directory: self.directory,
            hidden: self.hidden,
            extension: match self.extension {
                Some(extension) => Some(extension@),
                None => None,
            },
            name: self.name@,
        }
    }
}

/// The order of extensions: no extension comes before any extension, and
/// two extensions compare byte by byte.
pub open spec fn extension_lt(a: Option<Seq<u8>>, b: Option<Seq<u8>>) -> bool {
    match (a, b) {
        (None, Some(_)) => true,
        (Some(x), Some(y)) => bytes_lt(x, y),
        _ => false,
    }
}

/// Whether the extensions settle the order of two keys: both are files and
/// their extensions differ. A file without an extension differs from every
/// file that has one.
pub open spec fn extensions_differ(a: KeyView, b: KeyView) -> bool {
    !a.directory && !b.directory && a.extension != b.extension
}

/// Whether `a` is listed strictly before `b`. The first criterion on which
/// the two differ decides: directories before files, hidden before visible,
/// files by extension, with the files that have none first, then the name.
pub open spec fn precedes(a: KeyView, b: KeyView) -> bool {
    if a.directory != b.directory {
        a.directory
    } else if a.hidden != b.hidden {
        a.hidden
    } else if extensions_differ(a, b) {
        extension_lt(a.extension, b.extension)
    } else {
        bytes_lt(a.name, b.name)
    }
}

/// Whether neither key is listed before the other.
pub open spec fn tied(a: KeyView, b: KeyView) -> bool {
    !precedes(a, b) && !precedes(b, a)
}

/// The group of a key by the two criteria that come first: hidden
/// directories (0), visible directories (1), hidden files (2), visible
/// files (3).
pub open spec fn tier(a: KeyView) -> int {
    (if a.directory { 0int } else { 2int }) + (if a.hidden { 0int } else { 1int })
}

/// How two byte strings compare.
pub open spec fn byte_order(a: Seq<u8>, b: Seq<u8>) -> Ordering {
    if bytes_lt(a, b) {
        Ordering::Less
    } else if bytes_lt(b, a) {
        Ordering::Greater
    } else {
        Ordering::Equal
    }
}

/// How two keys compare: `Less` where the first is listed before the
/// second, `Greater` where the second is listed before the first, `Equal`
/// where they tie.
pub open spec fn key_order(a: KeyView, b: KeyView) -> Ordering {
    if precedes(a, b) {
        Ordering::Less
    } else if precedes(b, a) {
        Ordering::Greater
    } else {
        Ordering::Equal
    }
}

/// Compares two byte strings lexicographically.
pub fn compare_bytes(a: &[u8], b: &[u8]) -> (r: Ordering)
    ensures
        r == byte_order(a@, b@),
{
    let k = common_prefix_len(a, b);
    proof {
        lemma_mismatch(a@, b@);
        lemma_mismatch_symmetric(a@, b@);
    }
    if k < b.len() && (k == a.len() || a[k] < b[k]) {
        Ordering::Less
    } else if k < a.len() && (k == b.len() || b[k] < a[k]) {
        Ordering::Greater
    } else {
        Ordering::Equal
    }
}

/// Compares two keys for the listing: by kind, then by visibility, then,
/// for two files, by extension, a file without one first, then by name.
pub fn compare_keys(a: &SortKey, b: &SortKey) -> (r: Ordering)
    ensures
        r == key_order(a@, b@),
{
    if a.directory != b.directory {
        return if a.directory {
            Ordering::Less
        } else {
            Ordering::Greater
        };
    }
    if a.hidden != b.hidden {
        return if a.hidden {
            Ordering::Less
        } else {
            Ordering::Greater
        };
    }
    if !a.directory && !b.directory {
        match (&a.extension, &b.extension) {
            (None, Some(_)) => {
                return Ordering::Less;
            },
            (Some(_), None) => {
                return Ordering::Greater;
            },
            (Some(own), Some(others)) => {
                proof {
                    lemma_bytes_lt_total(own@, others@);
                }
                match compare_bytes(own.as_slice(), others.as_slice()) {
                    Ordering::Equal => {},
                    decided => {
                        return decided;
                    },
                }
            },
            (None, None) => {},
        }
    }
    compare_bytes(a.name.as_slice(), b.name.as_slice())
}

impl SortKey {
    /// Tells whether an entry with this key is listed strictly before one
    /// with the key `other`.
    pub fn comes_before(&self, other: &SortKey) -> (r: bool)
        ensures
            r == precedes(self@, other@),
    {
        match compare_keys(self, other) {
            Ordering::Less => true,
            _ => false,
        }
    }
}

/// No key is listed before itself.
pub proof fn lemma_precedes_irreflexive(a: KeyView)
    ensures
        !precedes(a, a),
{
}

/// Of two keys at most one is listed before the other.
pub proof fn lemma_precedes_asymmetric(a: KeyView, b: KeyView)
    requires
        precedes(a, b),
    ensures
        !precedes(b, a),
{
    if a.directory != b.directory {
    } else if a.hidden != b.hidden {
    } else if extensions_differ(a, b) {
        if a.extension is Some && b.extension is Some {
            lemma_bytes_lt_asymmetric(a.extension.unwrap(), b.extension.unwrap());
        }
    } else {
        lemma_bytes_lt_asymmetric(a.name, b.name);
    }
}

/// Keys that tie agree on every criterion: they are of one kind, equally
/// hidden, have the same folded name and, if they are files, the same
/// extension. The keys that tie are those that compare as `Equal`.
pub proof fn lemma_tied_keys_agree(a: KeyView, b: KeyView)
    requires
        tied(a, b),
    ensures
        a.directory == b.directory,
        a.hidden == b.hidden,
        a.name == b.name,
        !a.directory ==> a.extension == b.extension,
        key_order(a, b) == Ordering::Equal,
{
    if extensions_differ(a, b) {
        if a.extension is Some && b.extension is Some {
            lemma_bytes_lt_total(a.extension.unwrap(), b.extension.unwrap());
        }
    } else {
        lemma_bytes_lt_total(a.name, b.name);
    }
}

/// A directory is listed before anything that is not one.
pub proof fn lemma_directory_precedes_file(a: KeyView, b: KeyView)
    requires
        a.directory,
        !b.directory,
    ensures
        precedes(a, b),
        !precedes(b, a),
        key_order(a, b) == Ordering::Less,
        key_order(b, a) == Ordering::Greater,
{
}

/// Of two entries of the same kind, a hidden one is listed before a
/// visible one.
pub proof fn lemma_hidden_precedes_visible(a: KeyView, b: KeyView)
    requires
        a.directory == b.directory,
        a.hidden,
        !b.hidden,
    ensures
        precedes(a, b),
        !precedes(b, a),
        key_order(a, b) == Ordering::Less,
        key_order(b, a) == Ordering::Greater,
{
}

/// Of two files that are equally hidden and both have an extension, the one
/// with the smaller extension is listed first, whatever their names are.
pub proof fn lemma_smaller_extension_precedes(a: KeyView, b: KeyView)
    requires
        !a.directory,
        !b.directory,
        a.hidden == b.hidden,
        a.extension is Some,
        b.extension is Some,
        bytes_lt(a.extension.unwrap(), b.extension.unwrap()),
    ensures
        precedes(a, b),
        !precedes(b, a),
        key_order(a, b) == Ordering::Less,
        key_order(b, a) == Ordering::Greater,
{
    lemma_bytes_lt_asymmetric(a.extension.unwrap(), b.extension.unwrap());
}

/// Of two files that are equally hidden, one without an extension is listed
/// before one with an extension, whatever their names are.
pub proof fn lemma_no_extension_precedes_extension(a: KeyView, b: KeyView)
    requires
        !a.directory,
        !b.directory,
        a.hidden == b.hidden,
        a.extension is None,
        b.extension is Some,
    ensures
        precedes(a, b),
        !precedes(b, a),
        key_order(a, b) == Ordering::Less,
        key_order(b, a) == Ordering::Greater,
{
}

/// The order respects the tiers: a key of a lower tier is listed first, and
/// no key is listed before one of a lower tier.
pub proof fn lemma_precedes_respects_tier(a: KeyView, b: KeyView)
    ensures
        tier(a) < tier(b) ==> precedes(a, b),
        precedes(a, b) ==> tier(a) <= tier(b),
{
}

/// The order of extensions is transitive, and so is "not behind".
proof fn lemma_extension_order(a: Option<Seq<u8>>, b: Option<Seq<u8>>, c: Option<Seq<u8>>)
    ensures
        extension_lt(a, b) && extension_lt(b, c) ==> extension_lt(a, c),
        !extension_lt(b, a) && !extension_lt(c, b) ==> !extension_lt(c, a),
        a == b || extension_lt(a, b) || extension_lt(b, a),
        !(extension_lt(a, b) && extension_lt(b, a)),
{
    if a is Some && b is Some {
        lemma_bytes_lt_total(a.unwrap(), b.unwrap());
        if bytes_lt(a.unwrap(), b.unwrap()) {
            lemma_bytes_lt_asymmetric(a.unwrap(), b.unwrap());
        }
    }
    if a is Some && b is Some && c is Some {
        if bytes_lt(a.unwrap(), b.unwrap()) && bytes_lt(b.unwrap(), c.unwrap()) {
            lemma_bytes_lt_transitive(a.unwrap(), b.unwrap(), c.unwrap());
        }
        if !bytes_lt(b.unwrap(), a.unwrap()) && !bytes_lt(c.unwrap(), b.unwrap()) {
            lemma_bytes_not_behind_transitive(a.unwrap(), b.unwrap(), c.unwrap());
        }
    }
}

/// The order is transitive: a key listed before a second that is listed
/// before a third is listed before the third.
pub proof fn lemma_precedes_transitive(a: KeyView, b: KeyView, c: KeyView)
    requires
        precedes(a, b),
        precedes(b, c),
    ensures
        precedes(a, c),
{
    if tier(a) == tier(b) && tier(b) == tier(c) {
        lemma_extension_order(a.extension, b.extension, c.extension);
        lemma_extension_order(b.extension, a.extension, c.extension);
        if a.directory || (a.extension == b.extension && b.extension == c.extension) {
            lemma_bytes_lt_transitive(a.name, b.name, c.name);
        }
    }
}

/// "Not listed behind" is transitive: if `b` is not listed before `a` and `c`
/// is not listed before `b`, then `c` is not listed before `a`. With
/// asymmetry this makes the order a total one, in which the keys that tie
/// form the classes of equal rank.
pub proof fn lemma_not_behind_transitive(a: KeyView, b: KeyView, c: KeyView)
    requires
        !precedes(b, a),
        !precedes(c, b),
    ensures
        !precedes(c, a),
{
    if tier(a) == tier(b) && tier(b) == tier(c) {
        lemma_extension_order(a.extension, b.extension, c.extension);
        lemma_extension_order(b.extension, a.extension, c.extension);
        lemma_extension_order(c.extension, b.extension, a.extension);
        if a.directory || (a.extension == b.extension && b.extension == c.extension) {
            lemma_bytes_not_behind_transitive(a.name, b.name, c.name);
        }
    }
}

} // verus!
