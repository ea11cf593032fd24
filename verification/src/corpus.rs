//! The corpus: the files to measure, the order in which they are taken, and
//! how often each is parsed.

use vstd::prelude::*;
use vstd::string::StrSliceExecFns;
use crate::order::{bytes_le, key_of, lemma_bytes_le_antisymmetric, lemma_key_of_injective};
use crate::sort::{
    is_stable_order, keys_of, lemma_sorted_order_is_stable, sorted_order, stable_order,
};

verus! {

/// One file of the corpus, as a scan of a directory found it.
#[derive(Debug)]
pub struct CorpusEntry {
    /// Where the file is.
    pub path: String,
    /// The last component of the path.
    pub filename: String,
    /// The length of the file in bytes.
    pub size_bytes: usize,
}

/// The mathematical value of a `CorpusEntry`.
pub struct CorpusEntryView {
    pub path: Seq<char>,
    pub filename: Seq<char>,
    pub size_bytes: nat,
}

impl View for CorpusEntry {
    type V = CorpusEntryView;

    open spec fn view(&self) -> CorpusEntryView {
        CorpusEntryView {
            path: self.path@,
            filename: self.filename@,
            size_bytes: self.size_bytes as nat,
        }
    }
}

impl Clone for CorpusEntry {
    fn clone(&self) -> (copy: CorpusEntry)
        ensures
            copy@ == self@,
    {
        CorpusEntry {
            path: self.path.clone(),
            filename: self.filename.clone(),
            size_bytes: self.size_bytes,
        }
    }
}

/// Whether a file of this name belongs to the corpus: the name ends in
/// `.html`, and something stands before that dot.
pub open spec fn has_html_extension(filename: Seq<char>) -> bool {
    filename.len() > 5 && filename.subrange(filename.len() - 5, filename.len() as int)
        == ".html"@
}

/// Whether a file of this name belongs to the corpus.
pub fn is_html_file(filename: &str) -> (is_html: bool)
    ensures
        is_html == has_html_extension(filename@),
{
    let n = filename.unicode_len();
    proof {
        reveal_strlit(".html");
    }
    if n <= 5 {
        return false;
    }
    let ghost tail = filename@.subrange(n - 5, n as int);
    assert(tail.len() == 5 && ".html"@.len() == 5);
    assert(forall|k: int| 0 <= k < 5 ==> tail[k] == filename@[n - 5 + k]);
    let is_html = filename.get_char(n - 5) == '.' && filename.get_char(n - 4) == 'h'
        && filename.get_char(n - 3) == 't' && filename.get_char(n - 2) == 'm'
        && filename.get_char(n - 1) == 'l';
    proof {
        if is_html {
            assert(tail =~= ".html"@);
        } else {
            assert(tail[0] == filename@[n - 5] && tail[1] == filename@[n - 4] && tail[2]
                == filename@[n - 3] && tail[3] == filename@[n - 2] && tail[4] == filename@[n - 1]);
        }
    }
    is_html
}

/// The values of a sequence of entries.
pub open spec fn entries_view(entries: Seq<CorpusEntry>) -> Seq<CorpusEntryView> {
    Seq::new(entries.len(), |i: int| entries[i]@)
}

/// How often a file of `size_bytes` bytes is parsed under the clock: the
/// larger the file, the fewer times.
pub open spec fn iterations_for(size_bytes: nat) -> nat {
    if size_bytes > 5_000_000 {
        3
    } else if size_bytes > 500_000 {
        10
    } else if size_bytes > 100_000 {
        25
    } else {
        50
    }
}

/// The number of timed parses for a file of `size_bytes` bytes.
pub fn iterations_for_size(size_bytes: usize) -> (iterations: usize)
    ensures
        iterations == iterations_for(size_bytes as nat),
{
    if size_bytes > 5_000_000 {
        3
    } else if size_bytes > 500_000 {
        10
    } else if size_bytes > 100_000 {
        25
    } else {
        50
    }
}

/// The keys by which entries are ordered: their file names alone.
pub open spec fn filename_keys(entries: Seq<CorpusEntryView>) -> Seq<Seq<u8>> {
    Seq::new(entries.len(), |i: int| key_of(entries[i].filename))
}

/// The order in which the entries are taken: ascending by file name, entries
/// of one name in the order in which they were found.
pub open spec fn corpus_order(entries: Seq<CorpusEntryView>) -> Seq<int> {
    sorted_order(filename_keys(entries))
}

/// The entries in the order in which they are taken.
pub open spec fn sorted_corpus(entries: Seq<CorpusEntryView>) -> Seq<CorpusEntryView> {
    Seq::new(entries.len(), |k: int| entries[corpus_order(entries)[k]])
}

/// Puts the entries in order of their file names. Nothing is dropped; entries
/// with the same file name stay in the order they had.
pub fn sort_corpus(entries: &mut Vec<CorpusEntry>)
    ensures
        entries_view(final(entries)@) == sorted_corpus(entries_view(old(entries)@)),
        is_stable_order(
            filename_keys(entries_view(old(entries)@)),
            corpus_order(entries_view(old(entries)@)),
        ),
{
    let ghost views = entries_view(entries@);
    let mut names: Vec<&str> = Vec::new();
    let mut i: usize = 0;
    while i < entries.len()
        invariant
            i <= entries.len(),
            names@.len() == i,
            forall|k: int| 0 <= k < i ==> (#[trigger] names@[k])@ == entries@[k].filename@,
        decreases entries.len() - i,
    {
        names.push(entries[i].filename.as_str());
        i += 1;
    }
    assert(keys_of(names@) =~= filename_keys(views));
    let order = stable_order(&names);
    let ghost full = corpus_order(views);
    let mut sorted: Vec<CorpusEntry> = Vec::new();
    let mut k: usize = 0;
    while k < order.len()
        invariant
            views == entries_view(entries@),
            full == corpus_order(views),
            is_stable_order(filename_keys(views), full),
            order@.len() == entries@.len(),
            forall|j: int| 0 <= j < order@.len() ==> #[trigger] order@[j] as int == full[j],
            k <= order@.len(),
            sorted@.len() == k,
            forall|j: int| 0 <= j < k ==> (#[trigger] sorted@[j])@ == views[full[j]],
        decreases order.len() - k,
    {
        let position = order[k];
        assert(position as int == full[k as int]);
        sorted.push(entries[position].clone());
        k += 1;
    }
    assert(entries_view(sorted@) =~= sorted_corpus(views));
    *entries = sorted;
}

/// In the order in which the corpus is taken, entries of one file name stand
/// side by side: whatever stands between two of them has that name too.
pub proof fn lemma_same_names_are_adjacent(
    entries: Seq<CorpusEntryView>,
    a: int,
    b: int,
    c: int,
)
    requires
        0 <= a <= b <= c < entries.len(),
        sorted_corpus(entries)[a].filename == sorted_corpus(entries)[c].filename,
    ensures
        sorted_corpus(entries)[b].filename == sorted_corpus(entries)[a].filename,
{
    let keys = filename_keys(entries);
    let p = corpus_order(entries);
    lemma_sorted_order_is_stable(keys);
    if a < b && b < c {
        assert(bytes_le(keys[p[a]], keys[p[b]]));
        assert(bytes_le(keys[p[b]], keys[p[c]]));
        assert(keys[p[c]] == keys[p[a]]);
        lemma_bytes_le_antisymmetric(keys[p[a]], keys[p[b]]);
        lemma_key_of_injective(entries[p[a]].filename, entries[p[b]].filename);
    }
}

} // verus!
