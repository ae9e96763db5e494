//! The queue file: its lines, the entries they hold, and the text that is
//! left when a finished entry is taken out.
//!
//! The file is plain text with one record per line. A line ends at a newline;
//! the last line may do without. A line that holds no entry is inert: it is
//! never offered for download and never removed.

use vstd::prelude::*;
use crate::item::{entry_of, DownloadItem, Entry};
use crate::text::{chars_of, leading, lemma_leading_is, lemma_leading_run, other_than, read_until};
use vstd::string::StringExecFns;

verus! {

/// Name of the queue file in the data directory of the feed reader.
pub const QUEUE_FILE: &'static str = "queue";

/// Name of the file, beside the queue file, that a new content is written to
/// before it takes the queue file's place.
pub const TEMP_FILE: &'static str = "queue.temp";

/// The feed reader whose queue is drained, under its present name.
pub const READER: &'static str = "newsboat";

/// The same feed reader under its former name.
pub const LEGACY_READER: &'static str = "newsbeuter";

/// The lines of `text`: the pieces between newlines, the newlines themselves
/// left out. A newline at the very end closes the last line and opens no new
/// one. Every other character, a carriage return too, belongs to its line.
pub open spec fn lines_of(text: Seq<char>) -> Seq<Seq<char>>
    decreases text.len(),
{
    if text.len() == 0 {
        Seq::empty()
    } else {
        let n = leading(text, other_than('\n')) as int;
        if n < text.len() {
            seq![text.take(n)] + lines_of(text.skip(n + 1))
        } else {
            seq![text]
        }
    }
}

/// Reading a line for its entry.
pub open spec fn reader() -> spec_fn(Seq<char>) -> Option<Entry> {
    |line: Seq<char>| entry_of(line)
}

/// The entries that `lines` hold, in the order of the lines. Lines without
/// an entry are passed over.
pub open spec fn entries_in(lines: Seq<Seq<char>>) -> Seq<Entry> {
    lines.filter_map(reader())
}

/// The entries of a queue file with the content `content`, in file order.
pub open spec fn entries_of(content: Seq<char>) -> Seq<Entry> {
    entries_in(lines_of(content))
}

/// Splits `content` into its lines.
pub fn split_lines(content: &str) -> (lines: Vec<String>)
    ensures
        lines.deep_view() == lines_of(content@),
{
    let chars = chars_of(content);
    let mut lines: Vec<String> = Vec::new();
    let mut i: usize = 0;
    assert(chars@.skip(0) == chars@);
    while i < chars.len()
        invariant
            chars@ == content@,
            i <= chars.len(),
            lines_of(content@) == lines.deep_view() + lines_of(chars@.skip(i as int)),
        decreases chars.len() - i,
    {
        let ghost here = chars@.skip(i as int);
        let (line, end) = read_until(&chars, i, '\n');
        lines.push(line);
        assert(here.take(end - i) == chars@.subrange(i as int, end as int));
        if end < chars.len() {
            assert(here.skip(end - i + 1) == chars@.skip(end + 1));
            i = end + 1;
        } else {
            i = end;
        }
    }
    lines
}

/// Reads the queue: the entries of every line of `content` that holds one,
/// in file order.
pub fn queue_items(content: &str) -> (items: Vec<DownloadItem>)
    ensures
        items.deep_view() == entries_of(content@),
{
    let lines = split_lines(content);
    let mut items: Vec<DownloadItem> = Vec::new();
    let mut k: usize = 0;
    while k < lines.len()
        invariant
            k <= lines.len(),
            lines.deep_view() == lines_of(content@),
            items.deep_view() == entries_in(lines.deep_view().take(k as int)),
        decreases lines.len() - k,
    {
        proof {
            lines.deep_view().lemma_filter_map_take_succ(reader(), k as int);
        }
        if let Some(item) = DownloadItem::new(lines[k].as_str()) {
            items.push(item);
        }
        k += 1;
    }
    assert(lines.deep_view().take(k as int) == lines.deep_view());
    items
}

/// Whether `line` stays in the queue when the entry fetched from `uri` leaves:
/// a line goes only if it holds an entry with exactly that address.
pub open spec fn stays(line: Seq<char>, uri: Seq<char>) -> bool {
    match entry_of(line) {
        Some(entry) => entry.uri != uri,
        None => true,
    }
}

/// The test `stays` for the address `uri`.
pub open spec fn keeper(uri: Seq<char>) -> spec_fn(Seq<char>) -> bool {
    |line: Seq<char>| stays(line, uri)
}

/// `lines` with a newline between each two neighbours.
pub open spec fn joined(lines: Seq<Seq<char>>) -> Seq<char>
    decreases lines.len(),
{
    if lines.len() == 0 {
        Seq::empty()
    } else if lines.len() == 1 {
        lines[0]
    } else {
        lines[0] + seq!['\n'] + joined(lines.skip(1))
    }
}

/// The content of the queue file after the entry fetched from `uri` has been
/// removed from a file with the content `content`: the lines that stay, as
/// they were and in their order, joined by newlines, and one newline at the end.
pub open spec fn without(content: Seq<char>, uri: Seq<char>) -> Seq<char> {
    joined(lines_of(content).filter(keeper(uri))) + seq!['\n']
}

/// One more line at the end of `lines` adds a newline and the line to what
/// `joined` gives, or the line alone where `lines` is empty.
pub proof fn lemma_joined_push(lines: Seq<Seq<char>>, line: Seq<char>)
    ensures
        joined(lines.push(line)) == if lines.len() == 0 {
            line
        } else {
            joined(lines) + seq!['\n'] + line
        },
    decreases lines.len(),
{
    let longer = lines.push(line);
    if lines.len() == 1 {
        assert(longer.skip(1) == seq![line]);
    } else if lines.len() >= 2 {
        lemma_joined_push(lines.skip(1), line);
        assert(longer.skip(1) == lines.skip(1).push(line));
        assert(joined(longer) == longer[0] + seq!['\n'] + joined(longer.skip(1)));
        assert(lines[0] + seq!['\n'] + (joined(lines.skip(1)) + seq!['\n'] + line) == (lines[0]
            + seq!['\n'] + joined(lines.skip(1))) + seq!['\n'] + line);
    }
}

/// Takes the entry of `item` out of the queue.
///
/// Gives the new content for a queue file that holds `content`: every line
/// that holds an entry with the address of `item` is dropped, however many
/// there are; every other line is kept letter for letter, a line without an
/// entry too.
pub fn queue_without(content: &str, item: &DownloadItem) -> (out: String)
    ensures
        out@ == without(content@, item@.uri),
{
    let lines = split_lines(content);
    let mut out = String::new();
    let mut any = false;
    let mut k: usize = 0;
    let ghost all = lines.deep_view();
    let ghost keep = keeper(item@.uri);
    while k < lines.len()
        invariant
            k <= lines.len(),
            all == lines.deep_view(),
            keep == keeper(item@.uri),
            out@ == joined(all.take(k as int).filter(keep)),
            any == (all.take(k as int).filter(keep).len() > 0),
        decreases lines.len() - k,
    {
        let ghost kept = all.take(k as int).filter(keep);
        let line = lines[k].as_str();
        proof {
            reveal(Seq::filter);
            assert(all.take(k + 1).drop_last() == all.take(k as int));
        }
        let stay = match DownloadItem::new(line) {
            Some(found) => !found.same_uri(item),
            None => true,
        };
        if stay {
            proof {
                lemma_joined_push(kept, line@);
            }
            if any {
                out.push('\n');
            }
            out.append(line);
            any = true;
        }
        k += 1;
    }
    assert(all.take(k as int) == all);
    out.push('\n');
    out
}

/// Whether `line` can be one line of a file: it holds no newline.
pub open spec fn is_line(line: Seq<char>) -> bool {
    forall|j: int| 0 <= j < line.len() ==> line[j] != '\n'
}

/// `text` with a newline added at its end unless it ends in one already.
pub open spec fn newline_ended(text: Seq<char>) -> Seq<char> {
    if text.len() > 0 && text.last() == '\n' {
        text
    } else {
        text + seq!['\n']
    }
}

/// The test for an entry that is fetched from another address than `uri`.
pub open spec fn other_uri(uri: Seq<char>) -> spec_fn(Entry) -> bool {
    |entry: Entry| entry.uri != uri
}

/// No line of a text holds a newline, and a text that is not empty has at
/// least one line.
pub proof fn lemma_lines_are_lines(text: Seq<char>)
    ensures
        forall|i: int| 0 <= i < lines_of(text).len() ==> is_line(#[trigger] lines_of(text)[i]),
        text.len() > 0 ==> lines_of(text).len() > 0,
    decreases text.len(),
{
    if text.len() > 0 {
        let keep = other_than('\n');
        let n = leading(text, keep) as int;
        lemma_leading_run(text, keep);
        assert(is_line(text.take(n)));
        if n < text.len() {
            let rest = text.skip(n + 1);
            lemma_lines_are_lines(rest);
            assert forall|i: int| 0 <= i < lines_of(text).len() implies is_line(
                #[trigger] lines_of(text)[i],
            ) by {
                if i > 0 {
                    assert(lines_of(text)[i] == lines_of(rest)[i - 1]);
                }
            }
        }
    }
}

/// Splitting undoes joining: lines joined by newlines, with one newline at
/// the end, split into the same lines again.
pub proof fn lemma_lines_of_joined(lines: Seq<Seq<char>>)
    requires
        lines.len() > 0,
        forall|i: int| 0 <= i < lines.len() ==> is_line(#[trigger] lines[i]),
    ensures
        lines_of(joined(lines) + seq!['\n']) == lines,
    decreases lines.len(),
{
    let keep = other_than('\n');
    let text = joined(lines) + seq!['\n'];
    let first = lines[0];
    let n = first.len() as int;
    assert(is_line(first));
    assert(forall|j: int| 0 <= j < n ==> keep(#[trigger] text[j]));
    lemma_leading_is(text, keep, n);
    assert(text.take(n) == first);
    if lines.len() == 1 {
        assert(lines_of(text.skip(n + 1)) == Seq::<Seq<char>>::empty());
    } else {
        let others = lines.skip(1);
        assert(forall|i: int| 0 <= i < others.len() ==> is_line(#[trigger] others[i]));
        lemma_lines_of_joined(others);
        assert(text.skip(n + 1) == joined(others) + seq!['\n']);
    }
}

/// Joining undoes splitting, but for the newline at the end: the lines of a
/// text, joined by newlines and closed by one, are the text closed by a newline.
pub proof fn lemma_joined_lines(text: Seq<char>)
    ensures
        joined(lines_of(text)) + seq!['\n'] == newline_ended(text),
    decreases text.len(),
{
    if text.len() > 0 {
        let keep = other_than('\n');
        let n = leading(text, keep) as int;
        lemma_leading_run(text, keep);
        if n < text.len() {
            let first = text.take(n);
            let rest = text.skip(n + 1);
            if rest.len() == 0 {
                assert(lines_of(rest) == Seq::<Seq<char>>::empty());
            } else {
                lemma_joined_lines(rest);
                lemma_lines_are_lines(rest);
                let lines = seq![first] + lines_of(rest);
                assert(lines.skip(1) == lines_of(rest));
                assert(first + seq!['\n'] + joined(lines_of(rest)) + seq!['\n'] == first
                    + seq!['\n'] + (joined(lines_of(rest)) + seq!['\n']));
            }
        }
    }
}

/// The lines that stay, read for their entries, are the entries of all the
/// lines except those fetched from `uri`.
pub proof fn lemma_entries_of_kept(lines: Seq<Seq<char>>, uri: Seq<char>)
    ensures
        entries_in(lines.filter(keeper(uri))) == entries_in(lines).filter(other_uri(uri)),
    decreases lines.len(),
{
    reveal(Seq::filter);
    if lines.len() > 0 {
        let before = lines.drop_last();
        let line = lines.last();
        lemma_entries_of_kept(before, uri);
        let kept = before.filter(keeper(uri));
        match entry_of(line) {
            Some(entry) => {
                assert((entries_in(before) + seq![entry]).drop_last() == entries_in(before));
                if entry.uri != uri {
                    assert(kept.push(line).drop_last() == kept);
                }
            },
            None => {
                assert(kept.push(line).drop_last() == kept);
            },
        }
    }
}

/// The lines of the rewritten queue are the lines that stay; where none
/// stays, the one empty line that the closing newline makes.
pub proof fn lemma_lines_of_without(content: Seq<char>, uri: Seq<char>)
    ensures
        lines_of(without(content, uri)) == if lines_of(content).filter(keeper(uri)).len() > 0 {
            lines_of(content).filter(keeper(uri))
        } else {
            seq![Seq::<char>::empty()]
        },
{
    let kept = lines_of(content).filter(keeper(uri));
    if kept.len() > 0 {
        lemma_lines_are_lines(content);
        assert forall|i: int| 0 <= i < kept.len() implies is_line(#[trigger] kept[i]) by {
            lines_of(content).lemma_filter_contains_rev(keeper(uri), kept[i]);
        }
        lemma_lines_of_joined(kept);
    } else {
        let text = Seq::<char>::empty() + seq!['\n'];
        assert(text.take(0) == Seq::<char>::empty());
        assert(lines_of(text) == seq![text.take(0)] + lines_of(text.skip(1)));
    }
}

/// What a removal does to the entries of the queue: the rewritten queue
/// holds the entries of the old one, in their order, except all those that
/// are fetched from `uri`.
pub proof fn lemma_entries_of_without(content: Seq<char>, uri: Seq<char>)
    ensures
        entries_of(without(content, uri)) == entries_of(content).filter(other_uri(uri)),
{
    let kept = lines_of(content).filter(keeper(uri));
    lemma_lines_of_without(content, uri);
    lemma_entries_of_kept(lines_of(content), uri);
    if kept.len() == 0 {
        let blank = seq![Seq::<char>::empty()];
        assert(entries_in(blank.drop_last()) == Seq::<Entry>::empty());
    }
}

/// Multiplicity: after a removal no line of the queue holds an entry that is
/// fetched from `uri`, however many lines held one before; so the queue has
/// no such entry.
pub proof fn lemma_removed_uri_is_gone(content: Seq<char>, uri: Seq<char>)
    ensures
        forall|i: int|
            0 <= i < lines_of(without(content, uri)).len() ==> stays(
                #[trigger] lines_of(without(content, uri))[i],
                uri,
            ),
        forall|i: int|
            0 <= i < entries_of(without(content, uri)).len() ==> (#[trigger] entries_of(
                without(content, uri),
            )[i]).uri != uri,
{
    let kept = lines_of(content).filter(keeper(uri));
    let after = lines_of(without(content, uri));
    lemma_lines_of_without(content, uri);
    assert forall|i: int| 0 <= i < after.len() implies stays(#[trigger] after[i], uri) by {
        if kept.len() > 0 {
            lines_of(content).lemma_filter_pred(keeper(uri), i);
        }
    }
    let entries = entries_of(content).filter(other_uri(uri));
    lemma_entries_of_without(content, uri);
    assert forall|i: int| 0 <= i < entries.len() implies (#[trigger] entries[i]).uri != uri by {
        entries_of(content).lemma_filter_pred(other_uri(uri), i);
    }
}

/// A line that holds an entry contributes that entry to the entries of the lines.
proof fn lemma_entry_is_listed(lines: Seq<Seq<char>>, i: int)
    requires
        0 <= i < lines.len(),
        entry_of(lines[i]) is Some,
    ensures
        entries_in(lines).contains(entry_of(lines[i]).unwrap()),
    decreases lines.len(),
{
    let before = lines.drop_last();
    let wanted = entry_of(lines[i]).unwrap();
    if i == lines.len() - 1 {
        let all = entries_in(before) + seq![wanted];
        assert(all[all.len() - 1] == wanted);
    } else {
        lemma_entry_is_listed(before, i);
        let k = choose|k: int| 0 <= k < entries_in(before).len() && entries_in(before)[k] == wanted;
        match entry_of(lines.last()) {
            Some(entry) => {
                assert((entries_in(before) + seq![entry])[k] == wanted);
            },
            None => {},
        }
    }
}

/// A test that every element passes filters nothing out.
proof fn lemma_filter_all<A>(s: Seq<A>, pred: spec_fn(A) -> bool)
    requires
        forall|i: int| 0 <= i < s.len() ==> pred(#[trigger] s[i]),
    ensures
        s.filter(pred) == s,
    decreases s.len(),
{
    reveal(Seq::filter);
    if s.len() > 0 {
        assert(forall|i: int| 0 <= i < s.len() - 1 ==> pred(#[trigger] s.drop_last()[i]));
        lemma_filter_all(s.drop_last(), pred);
    }
}

/// Where none of the entries of `lines` is fetched from `uri`, every line stays.
proof fn lemma_all_lines_stay(lines: Seq<Seq<char>>, uri: Seq<char>)
    requires
        forall|i: int|
            0 <= i < entries_in(lines).len() ==> (#[trigger] entries_in(lines)[i]).uri != uri,
    ensures
        lines.filter(keeper(uri)) == lines,
{
    assert forall|i: int| 0 <= i < lines.len() implies keeper(uri)(#[trigger] lines[i]) by {
        if entry_of(lines[i]) is Some {
            lemma_entry_is_listed(lines, i);
        }
    }
    lemma_filter_all(lines, keeper(uri));
}

/// Idempotence: removing an address that no entry of the queue is fetched
/// from changes nothing but the end of the file, which is closed by a
/// newline if it was not. The entries are as before, and so are the lines of
/// a file that is not empty.
pub proof fn lemma_absent_uri_keeps_queue(content: Seq<char>, uri: Seq<char>)
    requires
        forall|i: int|
            0 <= i < entries_of(content).len() ==> (#[trigger] entries_of(content)[i]).uri != uri,
    ensures
        without(content, uri) == newline_ended(content),
        entries_of(without(content, uri)) == entries_of(content),
        content.len() > 0 ==> lines_of(without(content, uri)) == lines_of(content),
{
    lemma_all_lines_stay(lines_of(content), uri);
    lemma_joined_lines(content);
    lemma_entries_of_without(content, uri);
    lemma_filter_all(entries_of(content), other_uri(uri));
    lemma_lines_of_without(content, uri);
    lemma_lines_are_lines(content);
}

/// Removing the same address a second time changes nothing at all.
pub proof fn lemma_removal_twice(content: Seq<char>, uri: Seq<char>)
    ensures
        without(without(content, uri), uri) == without(content, uri),
{
    let once = without(content, uri);
    lemma_removed_uri_is_gone(content, uri);
    lemma_absent_uri_keeps_queue(once, uri);
}

} // verus!
