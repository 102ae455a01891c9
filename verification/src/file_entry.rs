//! One directory entry, as listed: its icon, its name, and what the listing
//! order needs to know of it.

use crate::emoji_utils::{classify, get_emoji, glyph, PathInfo};
use crate::order::{
    compare_keys, key_order, lemma_tied_keys_agree, precedes, tied, KeyView, SortKey,
};
use crate::text::{
    extension_of, file_extension, folded, folded_extension, is_dot_name, lemma_folded_equal,
    lowercase, starts_with_dot, str_eq, to_lowercase,
};
use std::cmp::Ordering;
use vstd::prelude::*;
use vstd::std_specs::cmp::PartialEqSpec;
use vstd::string::StrSliceExecFns;

verus! {

/// A directory entry. Icon, kind and visibility are fixed when the entry is
/// made and never looked up again.
pub struct FileEntry {
    /// The icon shown before the name.
    pub emoji: &'static str,
    /// The name shown: the final component of the entry's path.
    pub name: String,
    is_directory: bool,
    is_hidden: bool,
}

/// What an entry is to the contracts of this library.
pub struct EntryView {
    /// The icon shown before the name.
    pub emoji: Seq<char>,
    /// The name shown.
    pub name: Seq<char>,
    /// Whether the entry was a directory when it was made.
    pub directory: bool,
    /// Whether the entry was hidden when it was made.
    pub hidden: bool,
}

impl View for FileEntry {
    type V = EntryView;

    closed spec fn view(&self) -> EntryView {
        EntryView {
            emoji: self.emoji@,
            name: self.name@,
            directory: self.is_directory,
            hidden: self.is_hidden,
        }
    }
}

impl FileEntry {
    /// What the listing order reads of this entry.
    pub open spec fn key(&self) -> KeyView {
        KeyView {
            directory: self@.directory,
            hidden: self@.hidden,
            extension: folded_extension(self@.name),
            name: folded(self@.name),
        }
    }

    /// Makes the entry for a path from what was learned about it: the icon
    /// of its category, its name, whether it is a directory, and whether
    /// its name starts with a dot.
    pub fn new(path: PathInfo) -> (entry: FileEntry)
        ensures
            entry@.emoji == glyph(classify(path)),
            entry@.name == path.name@,
            entry@.directory == path.is_dir,
            entry@.hidden == is_dot_name(path.name@),
    {
        let emoji = get_emoji(&path);
        let is_directory = path.is_dir;
        let is_hidden = starts_with_dot(path.name.as_str());
        FileEntry { emoji, name: path.name, is_directory, is_hidden }
    }

    /// Returns the icon of the entry.
    pub fn emoji(&self) -> (emoji: &'static str)
        ensures
            emoji@ == self@.emoji,
    {
        self.emoji
    }

    /// Returns the name of the entry.
    pub fn name(&self) -> (name: &str)
        ensures
            name@ == self@.name,
    {
        self.name.as_str()
    }

    /// Tells whether the entry is a directory.
    pub fn is_directory(&self) -> (r: bool)
        ensures
            r == self@.directory,
    {
        self.is_directory
    }

    /// Tells whether the entry is hidden.
    pub fn is_hidden(&self) -> (r: bool)
        ensures
            r == self@.hidden,
    {
        self.is_hidden
    }

    /// Returns the extension of the entry's name in lower case, if the name
    /// has one.
    pub fn get_extension(&self) -> (ext: Option<String>)
        ensures
            ext is Some == extension_of(self@.name) is Some,
            ext matches Some(e) ==> e@ == lowercase(extension_of(self@.name).unwrap()),
    {
        match file_extension(self.name.as_str()) {
            Some(ext) => Some(to_lowercase(ext)),
            None => None,
        }
    }

    /// Computes what the listing order reads of this entry: its kind and
    /// visibility as they were recorded, and the extension and the name in
    /// folded form.
    pub fn sort_key(&self) -> (key: SortKey)
        ensures
            key@ == self.key(),
    {
        let extension = match file_extension(self.name.as_str()) {
            Some(ext) => Some(to_lowercase(ext).as_str().as_bytes_vec()),
            None => None,
        };
        let name = to_lowercase(self.name.as_str()).as_str().as_bytes_vec();
        SortKey { directory: self.is_directory, hidden: self.is_hidden, extension, name }
    }

    /// Tells whether this entry is listed strictly before `other`.
    pub fn listed_before(&self, other: &Self) -> (r: bool)
        ensures
            r == precedes(self.key(), other.key()),
    {
        self.sort_key().comes_before(&other.sort_key())
    }

    /// Compares two entries for the listing.
    pub fn cmp(&self, other: &Self) -> (r: Ordering)
        ensures
            r == key_order(self.key(), other.key()),
    {
        compare_keys(&self.sort_key(), &other.sort_key())
    }
}

impl PartialEq for FileEntry {
    /// Two entries are equal when their names are, case ignored; nothing
    /// else is read.
    fn eq(&self, other: &Self) -> (r: bool) {
        let own = to_lowercase(self.name.as_str());
        let others = to_lowercase(other.name.as_str());
        str_eq(own.as_str(), others.as_str())
    }
}

impl vstd::std_specs::cmp::PartialEqSpecImpl for FileEntry {
    open spec fn obeys_eq_spec() -> bool {
        true
    }

    open spec fn eq_spec(&self, other: &Self) -> bool {
        lowercase(self@.name) == lowercase(other@.name)
    }
}

impl Eq for FileEntry {

}

impl PartialOrd for FileEntry {
    fn partial_cmp(&self, other: &Self) -> (r: Option<Ordering>) {
        Some(self.cmp(other))
    }
}

impl vstd::std_specs::cmp::PartialOrdSpecImpl for FileEntry {
    open spec fn obeys_partial_cmp_spec() -> bool {
        true
    }

    open spec fn partial_cmp_spec(&self, other: &Self) -> Option<Ordering> {
        Some(key_order(self.key(), other.key()))
    }
}

/// Entries whose names are the same when case is ignored are equal, whatever
/// their icons, kinds and visibility are.
pub proof fn lemma_equal_names_equal_entries(a: FileEntry, b: FileEntry)
    requires
        lowercase(a@.name) == lowercase(b@.name),
    ensures
        a.eq_spec(&b),
{
}

/// Equal entries are those whose keys hold the same name.
pub proof fn lemma_equal_entries_share_key_name(a: FileEntry, b: FileEntry)
    ensures
        a.eq_spec(&b) <==> a.key().name == b.key().name,
{
    lemma_folded_equal(a@.name, b@.name);
}

/// Entries that tie in the listing order are equal. Equal entries need not
/// tie: they may differ in kind, in visibility, or in their extensions.
pub proof fn lemma_tied_entries_are_equal(a: FileEntry, b: FileEntry)
    requires
        tied(a.key(), b.key()),
    ensures
        a.eq_spec(&b),
{
    lemma_tied_keys_agree(a.key(), b.key());
    lemma_folded_equal(a@.name, b@.name);
}

} // verus!
