//! Listing entries: their kind, ordering, sorting and hidden-entry
//! filtering.

use vstd::prelude::*;
use vstd::string::StrSliceExecFns;
use crate::paths::wf_name;

verus! {

#[derive(Clone, Copy, Debug, PartialEq, Eq)]
pub enum FileType {
    Dir,
    File,
}

#[derive(Debug, PartialEq)]
pub struct File {
    pub name: String,
    pub file_type: FileType,
}

/// Mathematical image of one entry: its name as a character sequence
/// and its kind.
#[verifier::ext_equal]
pub ghost struct FileView {
    pub name: Seq<char>,
    pub file_type: FileType,
}

impl View for File {
    type V = FileView;

    open spec fn view(&self) -> FileView {
        FileView { name: self.name@, file_type: self.file_type }
    }
}

impl Clone for File {
    fn clone(&self) -> (res: Self)
        ensures
            res@ == self@,
    {
        File { name: self.name.clone(), file_type: self.file_type }
    }
}

/// The view of a whole listing, entry by entry.
pub open spec fn listing_view(s: Seq<File>) -> Seq<FileView> {
    Seq::new(s.len(), |i: int| s[i]@)
}

/// Lexicographic comparison of names from position `i` on: true when
/// the first name is not after the second.
pub open spec fn le_name_from(a: Seq<char>, b: Seq<char>, i: int) -> bool
    decreases a.len() - i,
{
    if i < 0 || i >= a.len() {
        true
    } else if i >= b.len() {
        false
    } else if (a[i] as u32) < (b[i] as u32) {
        true
    } else if (a[i] as u32) > (b[i] as u32) {
        false
    } else {
        le_name_from(a, b, i + 1)
    }
}

/// Ascending lexical order on names.
pub open spec fn le_name(a: Seq<char>, b: Seq<char>) -> bool {
    le_name_from(a, b, 0)
}

/// The display order of two entries: every directory before every
/// file, and names ascending within one kind.
pub open spec fn file_le(a: FileView, b: FileView) -> bool {
    match (a.file_type, b.file_type) {
        (FileType::Dir, FileType::File) => true,
        (FileType::File, FileType::Dir) => false,
        _ => le_name(a.name, b.name),
    }
}

/// A listing in display order.
pub open spec fn sorted(l: Seq<FileView>) -> bool {
    forall|i: int, j: int| 0 <= i < j < l.len() ==> file_le(#[trigger] l[i], #[trigger] l[j])
}

/// A listing the navigator accepts: display order, with well-formed
/// entry names.
pub open spec fn wf_listing(l: Seq<FileView>) -> bool {
    &&& sorted(l)
    &&& forall|i: int| 0 <= i < l.len() ==> wf_name(#[trigger] l[i].name)
}

proof fn lemma_le_name_from_total(a: Seq<char>, b: Seq<char>, i: int)
    ensures
        le_name_from(a, b, i) || le_name_from(b, a, i),
    decreases a.len() - i,
{
    if 0 <= i && i < a.len() && i < b.len() && (a[i] as u32) == (b[i] as u32) {
        lemma_le_name_from_total(a, b, i + 1);
    }
}

proof fn lemma_le_name_from_trans(a: Seq<char>, b: Seq<char>, c: Seq<char>, i: int)
    requires
        le_name_from(a, b, i),
        le_name_from(b, c, i),
    ensures
        le_name_from(a, c, i),
    decreases a.len() - i,
{
    if 0 <= i && i < a.len() {
        if i < b.len() && (a[i] as u32) == (b[i] as u32) && i < c.len() && (b[i] as u32) == (
        c[i] as u32) {
            lemma_le_name_from_trans(a, b, c, i + 1);
        }
    }
}

/// The display order is total: of any two entries one may stand first.
pub proof fn lemma_file_le_total(a: FileView, b: FileView)
    ensures
        file_le(a, b) || file_le(b, a),
{
    lemma_le_name_from_total(a.name, b.name, 0);
}

/// The display order is transitive.
pub proof fn lemma_file_le_trans(a: FileView, b: FileView, c: FileView)
    requires
        file_le(a, b),
        file_le(b, c),
    ensures
        file_le(a, c),
{
    if a.file_type == b.file_type && b.file_type == c.file_type {
        lemma_le_name_from_trans(a.name, b.name, c.name, 0);
    }
}

/// In display order every directory precedes every file, and within
/// one kind the names ascend.
pub proof fn lemma_sorted_listing_shape(l: Seq<FileView>)
    requires
        sorted(l),
    ensures
        forall|i: int, j: int|
            0 <= i < j < l.len() && #[trigger] l[i].file_type == FileType::File ==> #[trigger] l[j].file_type
                == FileType::File,
        forall|i: int, j: int|
            0 <= i < j < l.len() && #[trigger] l[i].file_type == #[trigger] l[j].file_type
                ==> le_name(l[i].name, l[j].name),
{
    assert forall|i: int, j: int|
        0 <= i < j < l.len() && #[trigger] l[i].file_type == FileType::File implies #[trigger] l[j].file_type
        == FileType::File by {
        assert(file_le(l[i], l[j]));
    }
}

pub fn str_le(a: &str, b: &str) -> (r: bool)
    ensures
        r == le_name(a@, b@),
{
    let la = a.unicode_len();
    let lb = b.unicode_len();
    let mut i: usize = 0;
    while i < la && i < lb
        invariant
            i <= la,
            i <= lb,
            la == a@.len(),
            lb == b@.len(),
            le_name(a@, b@) == le_name_from(a@, b@, i as int),
        decreases la - i,
    {
        let ca = a.get_char(i);
        let cb = b.get_char(i);
        if (ca as u32) < (cb as u32) {
            return true;
        }
        if (ca as u32) > (cb as u32) {
            return false;
        }
        i = i + 1;
    }
    la <= lb
}

pub fn file_le_exec(a: &File, b: &File) -> (r: bool)
    ensures
        r == file_le(a@, b@),
{
    match (a.file_type, b.file_type) {
        (FileType::Dir, FileType::File) => true,
        (FileType::File, FileType::Dir) => false,
        _ => str_le(a.name.as_str(), b.name.as_str()),
    }
}

/// An entry the hidden-entry filter removes: its name starts with the
/// hidden marker.
pub open spec fn is_hidden(f: FileView) -> bool {
    f.name.len() > 0 && f.name[0] == '.'
}

/// A listing with its hidden entries removed, order kept.
pub open spec fn filter_visible(l: Seq<FileView>) -> Seq<FileView> {
    l.filter(|f: FileView| !is_hidden(f))
}

proof fn lemma_filter_visible_push(s: Seq<FileView>, f: FileView)
    ensures
        filter_visible(s.push(f)) == (if !is_hidden(f) {
            filter_visible(s).push(f)
        } else {
            filter_visible(s)
        }),
{
    reveal(Seq::filter);
    assert(s.push(f).drop_last() =~= s);
    assert(s.push(f).last() == f);
}

/// Filtering removes entries without reordering: what remains is a
/// subsequence of the listing, so display order is kept, and so are
/// well-formed names.
pub proof fn lemma_filter_visible_wf(l: Seq<FileView>)
    ensures
        forall|k: int|
            0 <= k < filter_visible(l).len() ==> l.contains(#[trigger] filter_visible(l)[k]),
        sorted(l) ==> sorted(filter_visible(l)),
        wf_listing(l) ==> wf_listing(filter_visible(l)),
    decreases l.len(),
{
    reveal(Seq::filter);
    if l.len() == 0 {
    } else {
        let s = l.drop_last();
        let x = l.last();
        lemma_filter_visible_wf(s);
        assert(forall|k: int| 0 <= k < s.len() ==> s[k] == l[k]);
        assert(forall|e: FileView| s.contains(e) ==> l.contains(e));
        lemma_filter_visible_push(s, x);
        assert(s.push(x) =~= l);
        let fs = filter_visible(s);
        if !is_hidden(x) {
            assert(filter_visible(l) == fs.push(x));
            if sorted(l) {
                assert(sorted(s));
                assert forall|i: int, j: int|
                    0 <= i < j < fs.push(x).len() implies file_le(
                    #[trigger] fs.push(x)[i],
                    #[trigger] fs.push(x)[j],
                ) by {
                    if j < fs.len() {
                        assert(file_le(fs[i], fs[j]));
                    } else {
                        assert(fs.push(x)[j] == x);
                        assert(s.contains(fs[i]));
                        let w = choose|w: int| 0 <= w < s.len() && s[w] == fs[i];
                        assert(file_le(l[w], l[l.len() - 1]));
                    }
                }
            }
        } else {
            assert(filter_visible(l) == fs);
        }
    }
}

fn is_hidden_exec(f: &File) -> (r: bool)
    ensures
        r == is_hidden(f@),
{
    let s = f.name.as_str();
    s.unicode_len() > 0 && s.get_char(0) == '.'
}

/// Removes the entries whose name starts with the hidden marker,
/// keeping the order of the rest.
pub fn filter_hidden_files(files: Vec<File>) -> (kept: Vec<File>)
    ensures
        listing_view(kept@) == filter_visible(listing_view(files@)),
{
    let ghost lv = listing_view(files@);
    let mut kept: Vec<File> = Vec::new();
    let mut i: usize = 0;
    while i < files.len()
        invariant
            i <= files.len(),
            lv == listing_view(files@),
            listing_view(kept@) == filter_visible(lv.take(i as int)),
        decreases files.len() - i,
    {
        let ghost prev = listing_view(kept@);
        if !is_hidden_exec(&files[i]) {
            kept.push(files[i].clone());
        }
        proof {
            assert(lv.take(i + 1).drop_last() =~= lv.take(i as int));
            assert(lv.take(i + 1) =~= lv.take(i as int).push(files@[i as int]@));
            lemma_filter_visible_push(lv.take(i as int), files@[i as int]@);
            if !is_hidden(files@[i as int]@) {
                assert(listing_view(kept@) =~= prev.push(files@[i as int]@));
            }
        }
        i = i + 1;
    }
    proof {
        assert(lv.take(files@.len() as int) =~= lv);
    }
    kept
}

fn insert_position(sorted_files: &Vec<File>, f: &File) -> (pos: usize)
    requires
        sorted(listing_view(sorted_files@)),
    ensures
        pos <= sorted_files@.len(),
        forall|k: int| 0 <= k < pos ==> file_le(#[trigger] listing_view(sorted_files@)[k], f@),
        pos < sorted_files@.len() ==> !file_le(listing_view(sorted_files@)[pos as int], f@),
{
    let ghost lv = listing_view(sorted_files@);
    let mut pos: usize = 0;
    while pos < sorted_files.len() && file_le_exec(&sorted_files[pos], f)
        invariant
            pos <= sorted_files@.len(),
            lv == listing_view(sorted_files@),
            forall|k: int| 0 <= k < pos ==> file_le(#[trigger] lv[k], f@),
        decreases sorted_files@.len() - pos,
    {
        pos = pos + 1;
    }
    pos
}

proof fn lemma_sorted_insert(l: Seq<FileView>, pos: int, f: FileView)
    requires
        sorted(l),
        0 <= pos <= l.len(),
        forall|k: int| 0 <= k < pos ==> file_le(#[trigger] l[k], f),
        pos < l.len() ==> !file_le(l[pos], f),
    ensures
        sorted(l.insert(pos, f)),
{
    let m = l.insert(pos, f);
    l.insert_ensures(pos, f);
    if pos < l.len() {
        lemma_file_le_total(l[pos], f);
    }
    assert forall|i: int, j: int| 0 <= i < j < m.len() implies file_le(
        #[trigger] m[i],
        #[trigger] m[j],
    ) by {
        if i < pos {
            assert(m[i] == l[i]);
        } else if i == pos {
            assert(m[i] == f);
        } else {
            assert(m[i] == l[i - 1]);
        }
        if j < pos {
            assert(m[j] == l[j]);
        } else if j == pos {
            assert(m[j] == f);
        } else {
            assert(m[j] == l[j - 1]);
        }
        if j == pos {
            // m[i] stands among the entries known to be at or before f.
        } else if i == pos && j > pos {
            // f goes before l[pos] and everything after it.
            assert(file_le(f, l[pos]));
            if j - 1 > pos {
                assert(file_le(l[pos], l[j - 1]));
                lemma_file_le_trans(f, l[pos], l[j - 1]);
            }
        }
    }
}

/// Puts a listing into display order: directories first, names
/// ascending within one kind, keeping exactly the same entries.
pub fn sort_files(files: &mut Vec<File>)
    ensures
        sorted(listing_view(final(files)@)),
        listing_view(final(files)@).to_multiset() == listing_view(old(files)@).to_multiset(),
        final(files)@.len() == old(files)@.len(),
{
    let ghost lv = listing_view(files@);
    let mut out: Vec<File> = Vec::new();
    proof {
        assert(listing_view(out@) =~= lv.take(0));
    }
    let mut i: usize = 0;
    while i < files.len()
        invariant
            i <= files.len(),
            lv == listing_view(files@),
            sorted(listing_view(out@)),
            listing_view(out@).to_multiset() == lv.take(i as int).to_multiset(),
            out@.len() == i,
        decreases files.len() - i,
    {
        let ghost prev = listing_view(out@);
        let f = files[i].clone();
        let pos = insert_position(&out, &f);
        out.insert(pos, f);
        proof {
            let e = lv[i as int];
            assert(listing_view(out@) =~= prev.insert(pos as int, e));
            lemma_sorted_insert(prev, pos as int, e);
            vstd::seq_lib::to_multiset_insert::<FileView>(prev, pos as int, e);
            assert(lv.take(i + 1).drop_last() =~= lv.take(i as int));
            assert(lv.take(i + 1) =~= lv.take(i as int).push(e));
            vstd::seq_lib::to_multiset_build::<FileView>(lv.take(i as int), e);
        }
        i = i + 1;
    }
    proof {
        assert(lv.take(files@.len() as int) =~= lv);
        broadcast use vstd::seq_lib::group_to_multiset_ensures;

        assert(listing_view(out@).to_multiset().len() == lv.to_multiset().len());
    }
    *files = out;
}

/// Copies a listing entry by entry.
pub(crate) fn clone_files(files: &Vec<File>) -> (copy: Vec<File>)
    ensures
        listing_view(copy@) == listing_view(files@),
{
    let mut copy: Vec<File> = Vec::new();
    let mut i: usize = 0;
    while i < files.len()
        invariant
            i <= files.len(),
            copy@.len() == i,
            forall|k: int| 0 <= k < i ==> #[trigger] copy@[k]@ == files@[k]@,
        decreases files.len() - i,
    {
        copy.push(files[i].clone());
        i = i + 1;
    }
    proof {
        assert(listing_view(copy@) =~= listing_view(files@));
    }
    copy
}

/// The one recoverable failure: a directory could not be listed
/// (unreadable, gone, or not a directory).
#[derive(Clone, Copy, Debug, PartialEq, Eq)]
pub enum ListError {
    Unreadable,
}

/// The single place where a failed directory read degrades to an empty
/// listing, so that navigation never aborts on a transient error.
pub fn listing_or_empty(outcome: Result<Vec<File>, ListError>) -> (listing: Vec<File>)
    ensures
        match outcome {
            Ok(l) => listing == l,
            Err(_) => listing@.len() == 0,
        },
{
    match outcome {
        Ok(l) => l,
        Err(_) => Vec::new(),
    }
}

/// Classifies one raw directory entry.
pub fn make_file(name: String, is_dir: bool) -> (f: File)
    ensures
        f@.name == name@,
        f@.file_type == (if is_dir {
            FileType::Dir
        } else {
            FileType::File
        }),
{
    File {
        name,
        file_type: if is_dir {
            FileType::Dir
        } else {
            FileType::File
        },
    }
}

} // verus!
