//! The listing of one directory's index page: entries whose final path
//! segment opens with the reserved `_` prefix are left out, subdirectories
//! come first in traversal order, and documents follow sorted by date,
//! most recent first, ties broken by relative path.

use crate::date::Date;
use crate::date::date_le;
use crate::date::format_date;
use crate::date::format_date_spec;
use crate::frontmatter::Frontmatter;
use crate::frontmatter::FrontmatterModel;
use crate::text::chars_to_string;
use crate::text::find_char;
use crate::text::find_char_exec;
use crate::text::str_to_chars;
use crate::text::subvec;
use crate::tree::TreeNode;
use crate::tree::node_wf;
use vstd::prelude::*;

verus! {

/// A display-only projection of one tree node for index rendering.
pub struct PageEntry {
    pub file: String,
    pub frontmatter: Option<Frontmatter>,
    pub date_formatted: String,
    pub is_dir: bool,
}

/// The ghost shape of a `PageEntry`.
pub struct PageEntryModel {
    pub file: Seq<char>,
    pub frontmatter: Option<FrontmatterModel>,
    pub date_formatted: Seq<char>,
    pub is_dir: bool,
}

impl View for PageEntry {
    type V = PageEntryModel;

    open spec fn view(&self) -> PageEntryModel {
        PageEntryModel {
            file: self.file@,
            frontmatter: match self.frontmatter {
                Some(ref fm) => Some(fm@),
                None => None,
            },
            date_formatted: self.date_formatted@,
            is_dir: self.is_dir,
        }
    }
}

impl DeepView for PageEntry {
    type V = PageEntryModel;

    open spec fn deep_view(&self) -> PageEntryModel {
        self.view()
    }
}

/// The path's final segment: everything after the last separator.
pub open spec fn last_segment(p: Seq<char>) -> Seq<char>
    decreases p.len(),
    via last_segment_dec
{
    match find_char(p, '/') {
        None => p,
        Some(i) => last_segment(p.subrange(i + 1, p.len() as int)),
    }
}

#[via_fn]
proof fn last_segment_dec(p: Seq<char>) {
    crate::text::lemma_find_char(p, '/');
}

fn last_segment_exec(p: Vec<char>) -> (r: Vec<char>)
    ensures
        r@ == last_segment(p@),
    decreases p@.len(),
{
    proof {
        crate::text::lemma_find_char(p@, '/');
    }
    let n = p.len();
    match find_char_exec(&p, '/') {
        None => p,
        Some(i) => last_segment_exec(subvec(&p, i + 1, n)),
    }
}

/// The path without its first component: what an index links to, relative
/// to the directory being listed's own root.
pub open spec fn strip_first_component(p: Seq<char>) -> Seq<char> {
    match find_char(p, '/') {
        None => Seq::empty(),
        Some(i) => p.subrange(i + 1, p.len() as int),
    }
}

fn strip_first_component_exec(p: &Vec<char>) -> (r: Vec<char>)
    ensures
        r@ == strip_first_component(p@),
{
    proof {
        crate::text::lemma_find_char(p@, '/');
    }
    let n = p.len();
    match find_char_exec(p, '/') {
        None => {
            let r: Vec<char> = Vec::new();
            assert(r@ =~= strip_first_component(p@));
            r
        },
        Some(i) => subvec(p, i + 1, n),
    }
}

/// The entry appears in index listings: its final path segment does not
/// open with the reserved underscore prefix.
pub open spec fn listed(path: Seq<char>) -> bool {
    !(last_segment(path).len() > 0 && last_segment(path)[0] == '_')
}

fn listed_exec(path: &String) -> (r: bool)
    ensures
        r == listed(path@),
{
    let seg = last_segment_exec(str_to_chars(path.as_str()));
    !(seg.len() > 0 && seg[0] == '_')
}

/// The index entry for a document node.
pub open spec fn file_entry_of(path: Seq<char>, fm: FrontmatterModel) -> PageEntryModel {
    PageEntryModel {
        file: strip_first_component(path),
        frontmatter: Some(fm),
        date_formatted: format_date_spec(fm.date),
        is_dir: false,
    }
}

/// The index entry for a subdirectory node; without metadata its date
/// column is empty.
pub open spec fn dir_entry_of(path: Seq<char>, info: Option<FrontmatterModel>) -> PageEntryModel {
    PageEntryModel {
        file: strip_first_component(path),
        frontmatter: info,
        date_formatted: match info {
            Some(fm) => format_date_spec(fm.date),
            None => Seq::empty(),
        },
        is_dir: true,
    }
}

/// The listed subdirectory entries of `s`, in traversal order.
pub open spec fn dir_entries(s: Seq<TreeNode>) -> Seq<PageEntryModel>
    decreases s.len(),
{
    if s.len() == 0 {
        Seq::empty()
    } else {
        dir_entries(s.drop_last()) + (match s.last() {
            TreeNode::Directory { path, info, .. } => if listed(path@) {
                seq![
                    dir_entry_of(
                        path@,
                        match info {
                            Some(fm) => Some(fm@),
                            None => None,
                        },
                    ),
                ]
            } else {
                Seq::empty()
            },
            TreeNode::File { .. } => Seq::empty(),
        })
    }
}

/// The listed document entries of `s`, in traversal order, before sorting.
pub open spec fn file_entries(s: Seq<TreeNode>) -> Seq<PageEntryModel>
    decreases s.len(),
{
    if s.len() == 0 {
        Seq::empty()
    } else {
        file_entries(s.drop_last()) + (match s.last() {
            TreeNode::File { path, frontmatter } => if listed(path@) {
                seq![file_entry_of(path@, frontmatter@)]
            } else {
                Seq::empty()
            },
            TreeNode::Directory { .. } => Seq::empty(),
        })
    }
}

/// Lexicographic order on character sequences, by code point.
pub open spec fn lex_le(a: Seq<char>, b: Seq<char>) -> bool
    decreases a.len(),
{
    if a.len() == 0 {
        true
    } else if b.len() == 0 {
        false
    } else if (a[0] as u32) < (b[0] as u32) {
        true
    } else if (a[0] as u32) > (b[0] as u32) {
        false
    } else {
        lex_le(a.skip(1), b.skip(1))
    }
}

fn lex_le_exec(a: &Vec<char>, b: &Vec<char>) -> (r: bool)
    ensures
        r == lex_le(a@, b@),
    decreases a@.len(),
{
    if a.len() == 0 {
        true
    } else if b.len() == 0 {
        false
    } else if (a[0] as u32) < (b[0] as u32) {
        true
    } else if (a[0] as u32) > (b[0] as u32) {
        false
    } else {
        let ta = subvec(a, 1, a.len());
        let tb = subvec(b, 1, b.len());
        assert(ta@ =~= a@.skip(1));
        assert(tb@ =~= b@.skip(1));
        lex_le_exec(&ta, &tb)
    }
}

/// The date an entry sorts under; entries without metadata carry the zero
/// date.
pub open spec fn entry_date(e: PageEntryModel) -> Date {
    match e.frontmatter {
        Some(fm) => fm.date,
        None => Date { year: 0, month: 0, day: 0 },
    }
}

/// The index order on document entries: most recent date first, ties
/// broken by relative path, ascending.
pub open spec fn entry_le(a: PageEntryModel, b: PageEntryModel) -> bool {
    if entry_date(a) == entry_date(b) {
        lex_le(a.file, b.file)
    } else {
        !date_le(entry_date(a), entry_date(b))
    }
}

fn entry_le_exec(a: &PageEntry, b: &PageEntry) -> (r: bool)
    ensures
        r == entry_le(a@, b@),
{
    let da = match a.frontmatter {
        Some(ref fm) => fm.date,
        None => Date { year: 0, month: 0, day: 0 },
    };
    let db = match b.frontmatter {
        Some(ref fm) => fm.date,
        None => Date { year: 0, month: 0, day: 0 },
    };
    if da == db {
        lex_le_exec(&str_to_chars(a.file.as_str()), &str_to_chars(b.file.as_str()))
    } else {
        !crate::date::date_le_exec(&da, &db)
    }
}

/// `e` inserted into `s` after every element ordered at or before it: the
/// stable insertion the sort rests on.
pub open spec fn insert_sorted(e: PageEntryModel, s: Seq<PageEntryModel>) -> Seq<PageEntryModel>
    decreases s.len(),
{
    if s.len() == 0 {
        seq![e]
    } else if entry_le(s[0], e) {
        seq![s[0]] + insert_sorted(e, s.skip(1))
    } else {
        seq![e] + s
    }
}

/// The stable insertion sort of `s` under `entry_le`.
pub open spec fn sort_entries(s: Seq<PageEntryModel>) -> Seq<PageEntryModel>
    decreases s.len(),
{
    if s.len() == 0 {
        Seq::empty()
    } else {
        insert_sorted(s.last(), sort_entries(s.drop_last()))
    }
}

proof fn lemma_insert_at(e: PageEntryModel, s: Seq<PageEntryModel>, j: int)
    requires
        0 <= j <= s.len(),
        forall|k: int| 0 <= k < j ==> entry_le(#[trigger] s[k], e),
        j < s.len() ==> !entry_le(s[j], e),
    ensures
        insert_sorted(e, s) == s.subrange(0, j) + seq![e] + s.subrange(j, s.len() as int),
    decreases j,
{
    if j == 0 {
        if s.len() == 0 {
            assert(insert_sorted(e, s) =~= s.subrange(0, 0) + seq![e] + s.subrange(
                0,
                s.len() as int,
            ));
        } else {
            assert(insert_sorted(e, s) =~= s.subrange(0, 0) + seq![e] + s.subrange(
                0,
                s.len() as int,
            ));
        }
    } else {
        let t = s.skip(1);
        assert(entry_le(s[0], e));
        assert(forall|k: int| 0 <= k < j - 1 ==> entry_le(#[trigger] t[k], e));
        lemma_insert_at(e, t, j - 1);
        assert(insert_sorted(e, s) =~= s.subrange(0, j) + seq![e] + s.subrange(j, s.len() as int));
    }
}

fn find_insert_pos(v: &Vec<PageEntry>, e: &PageEntry) -> (j: usize)
    ensures
        j <= v.len(),
        forall|k: int| 0 <= k < j ==> entry_le(#[trigger] v.deep_view()[k], e@),
        j < v.len() ==> !entry_le(v.deep_view()[j as int], e@),
{
    let mut j: usize = 0;
    while j < v.len()
        invariant
            j <= v.len(),
            forall|k: int| 0 <= k < j ==> entry_le(#[trigger] v.deep_view()[k], e@),
        decreases v.len() - j,
    {
        if !entry_le_exec(&v[j], e) {
            return j;
        }
        j = j + 1;
    }
    j
}

fn insert_entry(v: &mut Vec<PageEntry>, e: PageEntry)
    ensures
        final(v).deep_view() == insert_sorted(e@, old(v).deep_view()),
{
    let j = find_insert_pos(v, &e);
    proof {
        lemma_insert_at(e@, v.deep_view(), j as int);
    }
    v.insert(j, e);
    assert(final(v).deep_view() =~~= old(v).deep_view().subrange(0, j as int) + seq![e@]
        + old(v).deep_view().subrange(j as int, old(v).deep_view().len() as int));
}

/// Sorts document entries by the index order, matching `sort_entries`.
fn sort_pages(v: Vec<PageEntry>) -> (r: Vec<PageEntry>)
    ensures
        r.deep_view() == sort_entries(v.deep_view()),
{
    let ghost whole = v.deep_view();
    let mut out: Vec<PageEntry> = Vec::new();
    let mut rest = v;
    proof {
        assert(out.deep_view() =~~= sort_entries(whole.subrange(0, 0)));
        assert(rest.deep_view() =~~= whole.subrange(0, whole.len() as int));
    }
    while rest.len() > 0
        invariant
            rest.deep_view().len() <= whole.len(),
            rest.deep_view() == whole.subrange(
                whole.len() - rest.deep_view().len(),
                whole.len() as int,
            ),
            out.deep_view() == sort_entries(
                whole.subrange(0, whole.len() - rest.deep_view().len()),
            ),
        decreases rest.len(),
    {
        let ghost k = whole.len() - rest.deep_view().len();
        let ghost rest0 = rest.deep_view();
        let e = rest.remove(0);
        proof {
            assert(e@ == rest0[0]);
            assert(rest0[0] == whole[k]);
            assert(rest.deep_view() =~~= rest0.skip(1));
            assert(rest.deep_view() =~~= whole.subrange(k + 1, whole.len() as int));
            assert(whole.subrange(0, k + 1).drop_last() =~~= whole.subrange(0, k));
            assert(whole.subrange(0, k + 1).last() == whole[k]);
        }
        insert_entry(&mut out, e);
    }
    proof {
        assert(whole.subrange(0, whole.len() as int) =~~= whole);
    }
    out
}

fn make_file_entry(path: &String, fm: &Frontmatter) -> (r: PageEntry)
    requires
        fm.wf(),
    ensures
        r@ == file_entry_of(path@, fm@),
{
    let file = chars_to_string(&strip_first_component_exec(&str_to_chars(path.as_str())));
    let date_formatted = format_date(&fm.date);
    PageEntry { file, frontmatter: Some(fm.clone()), date_formatted, is_dir: false }
}

fn make_dir_entry(path: &String, info: &Option<Frontmatter>) -> (r: PageEntry)
    requires
        match info {
            Some(fm) => fm.wf(),
            None => true,
        },
    ensures
        r@ == dir_entry_of(
            path@,
            match info {
                Some(fm) => Some(fm@),
                None => None,
            },
        ),
{
    let file = chars_to_string(&strip_first_component_exec(&str_to_chars(path.as_str())));
    match info {
        Some(fm) => PageEntry {
            file,
            frontmatter: Some(fm.clone()),
            date_formatted: format_date(&fm.date),
            is_dir: true,
        },
        None => {
            let r = PageEntry {
                file,
                frontmatter: None,
                date_formatted: String::new(),
                is_dir: true,
            };
            r
        },
    }
}

/// The full ordered listing for a directory's index page: its listed
/// subdirectories in traversal order, then its listed documents sorted
/// most recent first with path as tie-break; entries whose final path
/// segment opens with `_` appear nowhere.
pub fn build_index(contents: &Vec<TreeNode>) -> (r: Vec<PageEntry>)
    requires
        forall|i: int| 0 <= i < contents@.len() ==> node_wf(#[trigger] contents@[i]),
    ensures
        r.deep_view() == dir_entries(contents@) + sort_entries(file_entries(contents@)),
{
    let mut dirs: Vec<PageEntry> = Vec::new();
    let mut files: Vec<PageEntry> = Vec::new();
    let mut i: usize = 0;
    proof {
        assert(dirs.deep_view() =~~= dir_entries(contents@.subrange(0, 0)));
        assert(files.deep_view() =~~= file_entries(contents@.subrange(0, 0)));
    }
    while i < contents.len()
        invariant
            i <= contents@.len(),
            forall|k: int| 0 <= k < contents@.len() ==> node_wf(#[trigger] contents@[k]),
            dirs.deep_view() == dir_entries(contents@.subrange(0, i as int)),
            files.deep_view() == file_entries(contents@.subrange(0, i as int)),
        decreases contents.len() - i,
    {
        proof {
            assert(contents@.subrange(0, i as int + 1).drop_last() =~~= contents@.subrange(
                0,
                i as int,
            ));
            assert(contents@.subrange(0, i as int + 1).last() == contents@[i as int]);
        }
        match &contents[i] {
            TreeNode::File { path, frontmatter } => {
                if listed_exec(path) {
                    files.push(make_file_entry(path, frontmatter));
                }
                assert(files.deep_view() =~~= file_entries(contents@.subrange(0, i as int + 1)));
                assert(dirs.deep_view() =~~= dir_entries(contents@.subrange(0, i as int + 1)));
            },
            TreeNode::Directory { path, info, .. } => {
                if listed_exec(path) {
                    dirs.push(make_dir_entry(path, info));
                }
                assert(files.deep_view() =~~= file_entries(contents@.subrange(0, i as int + 1)));
                assert(dirs.deep_view() =~~= dir_entries(contents@.subrange(0, i as int + 1)));
            },
        }
        i = i + 1;
    }
    proof {
        assert(contents@.subrange(0, contents@.len() as int) =~~= contents@);
    }
    let mut sorted = sort_pages(files);
    dirs.append(&mut sorted);
    assert(dirs.deep_view() =~~= dir_entries(contents@) + sort_entries(file_entries(contents@)));
    dirs
}


/// The sequence is ordered under the index order.
pub open spec fn sorted_run(s: Seq<PageEntryModel>) -> bool {
    forall|i: int, j: int| 0 <= i < j < s.len() ==> entry_le(#[trigger] s[i], #[trigger] s[j])
}

proof fn lemma_lex_le_total(a: Seq<char>, b: Seq<char>)
    ensures
        lex_le(a, b) || lex_le(b, a),
    decreases a.len(),
{
    if a.len() > 0 && b.len() > 0 && !((a[0] as u32) < (b[0] as u32)) && !((a[0] as u32) > (
    b[0] as u32)) {
        lemma_lex_le_total(a.skip(1), b.skip(1));
    }
}

proof fn lemma_lex_le_trans(a: Seq<char>, b: Seq<char>, c: Seq<char>)
    requires
        lex_le(a, b),
        lex_le(b, c),
    ensures
        lex_le(a, c),
    decreases a.len(),
{
    if a.len() > 0 && b.len() > 0 && c.len() > 0 && (a[0] as u32) == (b[0] as u32) && (
    b[0] as u32) == (c[0] as u32) {
        lemma_lex_le_trans(a.skip(1), b.skip(1), c.skip(1));
    }
}

proof fn lemma_entry_le_total(a: PageEntryModel, b: PageEntryModel)
    ensures
        entry_le(a, b) || entry_le(b, a),
{
    if entry_date(a) == entry_date(b) {
        lemma_lex_le_total(a.file, b.file);
    }
}

proof fn lemma_entry_le_trans(a: PageEntryModel, b: PageEntryModel, c: PageEntryModel)
    requires
        entry_le(a, b),
        entry_le(b, c),
    ensures
        entry_le(a, c),
{
    if entry_date(a) == entry_date(b) && entry_date(b) == entry_date(c) {
        lemma_lex_le_trans(a.file, b.file, c.file);
    }
}

proof fn lemma_insert_sorted_props(e: PageEntryModel, s: Seq<PageEntryModel>)
    requires
        sorted_run(s),
    ensures
        sorted_run(insert_sorted(e, s)),
        insert_sorted(e, s).to_multiset() == s.to_multiset().insert(e),
    decreases s.len(),
{
    broadcast use vstd::seq_lib::group_to_multiset_ensures;
    broadcast use vstd::seq_lib::lemma_multiset_commutative;
    broadcast use vstd::multiset::group_multiset_axioms;

    let r = insert_sorted(e, s);
    if s.len() == 0 {
        assert(seq![e] =~= Seq::<PageEntryModel>::empty().push(e));
        assert(r.to_multiset() =~= s.to_multiset().insert(e));
    } else if entry_le(s[0], e) {
        let t = s.skip(1);
        assert(sorted_run(t)) by {
            assert(forall|i: int, j: int| 0 <= i < j < t.len() ==> t[i] == s[i + 1] && t[j]
                == s[j + 1]);
        }
        lemma_insert_sorted_props(e, t);
        let r2 = insert_sorted(e, t);
        assert(r == seq![s[0]] + r2);
        assert(s =~= seq![s[0]] + t);
        assert(r.to_multiset() =~= s.to_multiset().insert(e));
        // every element of the recursive insertion is bounded below by the head
        assert forall|k: int| 0 <= k < r2.len() implies entry_le(s[0], #[trigger] r2[k]) by {
            assert(r2.to_multiset().count(r2[k]) > 0);
            if r2[k] == e {
            } else {
                assert(t.to_multiset().count(r2[k]) > 0);
                assert(t.contains(r2[k]));
                let i = choose|i: int| 0 <= i < t.len() && t[i] == r2[k];
                assert(s[i + 1] == t[i]);
            }
        }
        assert forall|i: int, j: int| 0 <= i < j < r.len() implies entry_le(
            #[trigger] r[i],
            #[trigger] r[j],
        ) by {
            if i == 0 {
                assert(r[j] == r2[j - 1]);
            } else {
                assert(r[i] == r2[i - 1] && r[j] == r2[j - 1]);
            }
        }
    } else {
        lemma_entry_le_total(s[0], e);
        assert(entry_le(e, s[0]));
        assert(r == seq![e] + s);
        assert(s =~= seq![s[0]] + s.skip(1));
        assert(r.to_multiset() =~= s.to_multiset().insert(e));
        assert forall|i: int, j: int| 0 <= i < j < r.len() implies entry_le(
            #[trigger] r[i],
            #[trigger] r[j],
        ) by {
            if i == 0 {
                if j > 0 {
                    assert(r[j] == s[j - 1]);
                    if j - 1 > 0 {
                        lemma_entry_le_trans(e, s[0], s[j - 1]);
                    }
                }
            } else {
                assert(r[i] == s[i - 1] && r[j] == s[j - 1]);
            }
        }
    }
}

/// The sorted document listing is exactly a permutation of the listed
/// documents, ordered under the index order: most recent date first, ties
/// broken by relative path, ascending.
pub proof fn lemma_sort_entries_props(s: Seq<PageEntryModel>)
    ensures
        sorted_run(sort_entries(s)),
        (sort_entries(s).to_multiset() == s.to_multiset()),
    decreases s.len(),
{
    broadcast use vstd::seq_lib::group_to_multiset_ensures;

    if s.len() > 0 {
        let t = s.drop_last();
        lemma_sort_entries_props(t);
        lemma_insert_sorted_props(s.last(), sort_entries(t));
        assert(s =~= t.push(s.last()));
        assert(sort_entries(s).to_multiset() =~= s.to_multiset());
    }
}

/// The source path a node stands under.
pub open spec fn node_path(n: TreeNode) -> Seq<char> {
    match n {
        TreeNode::File { path, .. } => path@,
        TreeNode::Directory { path, .. } => path@,
    }
}

/// A node whose final path segment opens with the reserved underscore
/// prefix contributes nothing to an index listing, though the walk still
/// compiles it.
pub proof fn lemma_hidden_entry_excluded(s: Seq<TreeNode>, n: TreeNode)
    requires
        !listed(node_path(n)),
    ensures
        dir_entries(s.push(n)) == dir_entries(s),
        file_entries(s.push(n)) == file_entries(s),
{
    assert(s.push(n).drop_last() =~= s);
    assert(s.push(n).last() == n);
    assert(dir_entries(s.push(n)) =~= dir_entries(s));
    assert(file_entries(s.push(n)) =~= file_entries(s));
}

} // verus!
