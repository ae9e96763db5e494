//! The queue entry model: what one line of the queue file asks for.

use vstd::prelude::*;
use crate::parser::{
    lemma_bare_token, lemma_written_round_trip, tokenize_string, tokens_of, written,
};

verus! {

/// What a queue line asks for: the address to fetch from and the place to
/// write to, each as the characters of one token.
pub struct Entry {
    /// The source address.
    pub uri: Seq<char>,
    /// The destination path.
    pub path: Seq<char>,
}

/// The entry that `line` holds: its first token is the address, its second
/// the destination, and further tokens do not count. A line that cannot be
/// split into tokens, or that has fewer than two, holds no entry.
pub open spec fn entry_of(line: Seq<char>) -> Option<Entry> {
    match tokens_of(line) {
        Some(tokens) => if tokens.len() >= 2 {
            Some(Entry { uri: tokens[0], path: tokens[1] })
        } else {
            None
        },
        None => None,
    }
}

/// One pending download, read from a line of the queue file.
#[derive(Debug, PartialEq, Eq)]
pub struct DownloadItem {
    uri: String,
    path: String,
}

impl View for DownloadItem {
    type V = Entry;

    closed spec fn view(&self) -> Entry {
        Entry { uri: self.uri@, path: self.path@ }
    }
}

impl DeepView for DownloadItem {
    type V = Entry;

    open spec fn deep_view(&self) -> Entry {
        self@
    }
}

impl Clone for DownloadItem {
    fn clone(&self) -> (copy: DownloadItem)
        ensures
            copy@ == self@,
    {
        DownloadItem { uri: self.uri.clone(), path: self.path.clone() }
    }
}

impl DownloadItem {
    /// Reads the entry of one queue line.
    ///
    /// Gives an item exactly where the line splits into two or more tokens:
    /// the first is its address, the second its destination.
    pub fn new(line: &str) -> (item: Option<DownloadItem>)
        ensures
            match tokens_of(line@) {
                Some(tokens) => if tokens.len() >= 2 {
                    item matches Some(it) && it@.uri == tokens[0] && it@.path == tokens[1]
                } else {
                    item is None
                },
                None => item is None,
            },
            item.deep_view() == entry_of(line@),
    {
        match tokenize_string(line) {
            Some(tokens) => {
                if tokens.len() >= 2 {
                    Some(DownloadItem { uri: tokens[0].clone(), path: tokens[1].clone() })
                } else {
                    None
                }
            },
            None => None,
        }
    }

    /// Whether this item and `other` are fetched from the same address.
    pub fn same_uri(&self, other: &DownloadItem) -> (same: bool)
        ensures
            same == (self@.uri == other@.uri),
    {
        self.uri == other.uri
    }

    /// The address to fetch from.
    pub fn uri(&self) -> (uri: &str)
        ensures
            uri@ == self@.uri,
    {
        self.uri.as_str()
    }

    /// The path to write the fetched content to.
    pub fn path(&self) -> (path: &str)
        ensures
            path@ == self@.path,
    {
        self.path.as_str()
    }
}

/// The address of an entry is not empty where the line writes it as a bare
/// token; only a pair of quotes with nothing between them gives an empty one.
pub proof fn lemma_bare_uri_not_empty(line: Seq<char>)
    requires
        line.len() > 0,
        line[0] != '"',
        entry_of(line) is Some,
    ensures
        entry_of(line).unwrap().uri.len() > 0,
{
    lemma_bare_token(line);
}

/// Every entry can be written down: the line that writes the address and
/// the destination as two quoted tokens holds exactly that entry, whatever
/// characters the two hold.
pub proof fn lemma_entry_line(entry: Entry)
    ensures
        entry_of(written(seq![entry.uri, entry.path])) == Some(entry),
{
    lemma_written_round_trip(seq![entry.uri, entry.path]);
}

} // verus!
