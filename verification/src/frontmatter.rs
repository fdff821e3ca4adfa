//! Frontmatter: the structured metadata record prefixing every document,
//! and the extractor that splits a document's raw text into the metadata
//! block and the markup body.
//!
//! A document must open with a line holding exactly `---`; the metadata
//! block runs to the next occurrence of `---` in the rejoined remaining
//! lines, and everything after that occurrence is the body.

use crate::date::Date;
use crate::date::valid_date;
use crate::text::chars_to_string;
use crate::text::find_char;
use crate::text::find_sub;
use crate::text::find_sub_exec;
use crate::text::join_exec;
use crate::text::join_lines;
use crate::text::lines_exec;
use crate::text::lines_of;
use crate::text::str_to_chars;
use crate::text::subvec;
use crate::text::vec_eq;
use vstd::prelude::*;

verus! {

/// The metadata record of one document or directory.
pub struct Frontmatter {
    pub title: String,
    pub description: String,
    pub tags: Option<Vec<String>>,
    pub date: Date,
}

/// The ghost shape of a `Frontmatter`.
pub struct FrontmatterModel {
    pub title: Seq<char>,
    pub description: Seq<char>,
    pub tags: Option<Seq<Seq<char>>>,
    pub date: Date,
}

impl View for Frontmatter {
    type V = FrontmatterModel;

    open spec fn view(&self) -> FrontmatterModel {
        FrontmatterModel {
            title: self.title@,
            description: self.description@,
            tags: match self.tags {
                Some(ref ts) => Some(ts.deep_view()),
                None => None,
            },
            date: self.date,
        }
    }
}

impl DeepView for Frontmatter {
    type V = FrontmatterModel;

    open spec fn deep_view(&self) -> FrontmatterModel {
        self.view()
    }
}

impl Frontmatter {
    /// The record's date names an existing day.
    pub open spec fn wf(&self) -> bool {
        valid_date(self.date)
    }
}

impl Clone for Frontmatter {
    fn clone(&self) -> (r: Self)
        ensures
            r@ == self@,
    {
        Frontmatter {
            title: self.title.clone(),
            description: self.description.clone(),
            tags: match self.tags {
                Some(ref ts) => Some(clone_strings(ts)),
                None => None,
            },
            date: self.date,
        }
    }
}

fn clone_strings(v: &Vec<String>) -> (r: Vec<String>)
    ensures
        r.deep_view() == v.deep_view(),
{
    let mut r: Vec<String> = Vec::new();
    let mut i: usize = 0;
    while i < v.len()
        invariant
            i <= v.len(),
            r.len() == i,
            forall|k: int| 0 <= k < i ==> r.deep_view()[k] == v.deep_view()[k],
        decreases v.len() - i,
    {
        let c = v[i].clone();
        assert(c@ == v@[i as int]@);
        r.push(c);
        i = i + 1;
    }
    assert(r.deep_view() =~= v.deep_view());
    r
}

/// Why a document's metadata block could not be split off.
#[derive(Clone, Copy, Debug, PartialEq, Eq, Structural)]
pub enum ExtractError {
    /// The first line is not the delimiter.
    MissingOpeningDelimiter,
    /// No second delimiter follows the metadata block.
    MissingClosingDelimiter,
}

impl ExtractError {
    /// A human-readable description.
    pub fn message(&self) -> (r: &'static str)
        ensures
            (*self == ExtractError::MissingOpeningDelimiter ==> r@
                == "expected '---' on first line"@),
            (*self == ExtractError::MissingClosingDelimiter ==> r@ == "expected second '---'"@),
    {
        match self {
            ExtractError::MissingOpeningDelimiter => "expected '---' on first line",
            ExtractError::MissingClosingDelimiter => "expected second '---'",
        }
    }
}

/// The frontmatter delimiter, three hyphens.
pub open spec fn delim() -> Seq<char> {
    seq!['-', '-', '-']
}

/// What `extract` returns on the text `s`: the first line must be the
/// delimiter; the remaining lines are rejoined and split at the first
/// occurrence of the delimiter into metadata block and body.
pub open spec fn spec_extract(s: Seq<char>) -> Result<(Seq<char>, Seq<char>), ExtractError> {
    let ls = lines_of(s);
    if ls.len() > 0 && ls[0] != delim() {
        Err(ExtractError::MissingOpeningDelimiter)
    } else {
        let rest = join_lines(if ls.len() == 0 {
            ls
        } else {
            ls.subrange(1, ls.len() as int)
        });
        match find_sub(rest, delim()) {
            None => Err(ExtractError::MissingClosingDelimiter),
            Some(i) => Ok((rest.subrange(0, i), rest.subrange(i + 3, rest.len() as int))),
        }
    }
}

/// Splits a document's raw text into its metadata block and its body,
/// exactly as `spec_extract` describes.
pub fn extract(raw: &str) -> (r: Result<(String, String), ExtractError>)
    ensures
        r matches Ok(p) ==> spec_extract(raw@) matches Ok(q) && p.0@ == q.0 && p.1@ == q.1,
        r matches Err(e) ==> spec_extract(raw@) == Err::<(Seq<char>, Seq<char>), ExtractError>(e),
{
    let chars = str_to_chars(raw);
    let ls = lines_exec(&chars);
    let dl: Vec<char> = vec!['-', '-', '-'];
    assert(dl@ =~= delim());
    if ls.len() > 0 && !vec_eq(&ls[0], &dl) {
        assert(ls.deep_view()[0] == ls@[0]@);
        return Err(ExtractError::MissingOpeningDelimiter);
    }
    let rest = if ls.len() == 0 {
        join_exec(&ls, 0)
    } else {
        join_exec(&ls, 1)
    };
    proof {
        if ls.len() == 0 {
            assert(ls.deep_view().subrange(0, ls.deep_view().len() as int) =~~= ls.deep_view());
        }
        if ls.len() > 0 {
            assert(ls.deep_view()[0] == ls@[0]@);
        }
    }
    match find_sub_exec(&rest, &dl) {
        None => Err(ExtractError::MissingClosingDelimiter),
        Some(i) => {
            proof {
                crate::text::lemma_find_sub(rest@, dl@);
            }
            let block = subvec(&rest, 0, i);
            let body = subvec(&rest, i + 3, rest.len());
            Ok((chars_to_string(&block), chars_to_string(&body)))
        },
    }
}


/// `lines_of(t).len() >= 1` whenever `t` is non-empty.
proof fn lemma_lines_nonempty(t: Seq<char>)
    requires
        t.len() > 0,
    ensures
        lines_of(t).len() >= 1,
{
}

/// Joining the lines of a text gives the text back, when the text holds no
/// carriage return and does not end with a newline.
proof fn lemma_join_lines_ident(s: Seq<char>)
    requires
        forall|k: int| 0 <= k < s.len() ==> s[k] != '\r',
        s.len() > 0 ==> s[s.len() - 1] != '\n',
    ensures
        join_lines(lines_of(s)) == s,
    decreases s.len(),
{
    crate::text::lemma_find_char(s, '\n');
    if s.len() == 0 {
    } else {
        match find_char(s, '\n') {
            None => {
                assert(crate::text::strip_cr(s) == s);
                assert(join_lines(lines_of(s)) == s);
            },
            Some(i) => {
                let pre = s.subrange(0, i);
                let suf = s.subrange(i + 1, s.len() as int);
                assert(i < s.len() - 1) by {
                    if i == s.len() - 1 {
                        assert(s[s.len() - 1] == '\n');
                    }
                }
                assert(suf.len() > 0);
                assert(suf[suf.len() - 1] == s[s.len() - 1]);
                assert(forall|k: int| 0 <= k < suf.len() ==> suf[k] == s[i + 1 + k]);
                lemma_join_lines_ident(suf);
                lemma_lines_nonempty(suf);
                assert(crate::text::strip_cr(pre) == pre) by {
                    if pre.len() > 0 {
                        assert(pre[pre.len() - 1] == s[i - 1]);
                    }
                }
                let ls = lines_of(s);
                assert(ls == seq![pre] + lines_of(suf));
                assert(ls.len() >= 2);
                assert(ls[0] == pre);
                assert(ls.subrange(1, ls.len() as int) =~~= lines_of(suf));
                assert(join_lines(ls) == pre + seq!['\n'] + join_lines(lines_of(suf)));
                assert(pre + seq!['\n'] + suf =~= s);
            },
        }
    }
}

/// The canonical text of a document: the delimiter line, the metadata
/// block, a delimiter, the body.
pub open spec fn compose_document(m: Seq<char>, b: Seq<char>) -> Seq<char> {
    delim() + seq!['\n'] + m + seq!['\n'] + delim() + b
}

/// Extraction round-trips a composed document: for a metadata block free
/// of the delimiter and of carriage returns, and a body not ending in a
/// newline, extracting `---\n<metadata>\n---<body>` gives back exactly the
/// metadata block (with its closing newline) and the body, so the
/// metadata's fields survive unchanged.
pub proof fn lemma_extract_round_trip(m: Seq<char>, b: Seq<char>)
    requires
        forall|k: int| 0 <= k < m.len() ==> m[k] != '\r',
        forall|k: int| 0 <= k < b.len() ==> b[k] != '\r',
        b.len() > 0 ==> b[b.len() - 1] != '\n',
        find_sub(m, delim()) is None,
    ensures
        spec_extract(compose_document(m, b)) == Ok::<(Seq<char>, Seq<char>), ExtractError>(
            (m + seq!['\n'], b),
        ),
{
    let s = compose_document(m, b);
    let rest0 = m + seq!['\n'] + delim() + b;
    crate::text::lemma_find_char(s, '\n');
    assert(s[3] == '\n');
    assert(s[0] == '-' && s[1] == '-' && s[2] == '-');
    let fc = find_char(s, '\n');
    assert(fc matches Some(i) && i == 3) by {
        match fc {
            None => {
                assert(s[3] != '\n');
            },
            Some(i) => {
                if i > 3 {
                    assert(s[3] != '\n');
                }
                assert(i >= 0);
                assert(s[i] == '\n');
            },
        }
    }
    let ls = lines_of(s);
    let pre = s.subrange(0, 3);
    let suf = s.subrange(4, s.len() as int);
    assert(pre =~= delim());
    assert(suf =~= rest0);
    assert(crate::text::strip_cr(pre) == pre);
    assert(ls == seq![pre] + lines_of(rest0));
    assert(ls[0] == delim());
    assert(ls.len() > 0);
    // the rejoined remainder is exactly the remainder
    assert(forall|k: int| 0 <= k < rest0.len() ==> rest0[k] != '\r') by {
        assert(forall|k: int| 0 <= k < m.len() ==> rest0[k] == m[k]);
        assert(rest0[m.len() as int] == '\n');
        assert(rest0[m.len() as int + 1] == '-' && rest0[m.len() as int + 2] == '-' && rest0[m.len()
            as int + 3] == '-');
        assert(forall|k: int| m.len() + 4 <= k < rest0.len() ==> rest0[k] == b[k - m.len() as int
            - 4]);
    }
    assert(rest0.len() > 0);
    assert(rest0[rest0.len() - 1] != '\n') by {
        if b.len() > 0 {
            assert(rest0[rest0.len() - 1] == b[b.len() - 1]);
        } else {
            assert(rest0[rest0.len() - 1] == '-');
        }
    }
    lemma_join_lines_ident(rest0);
    lemma_lines_nonempty(rest0);
    assert(ls.subrange(1, ls.len() as int) =~~= lines_of(rest0));
    assert(join_lines(ls.subrange(1, ls.len() as int)) == rest0);
    // the first delimiter occurrence in the remainder is just after the block
    let dpos = m.len() as int + 1;
    crate::text::lemma_find_sub(rest0, delim());
    assert(crate::text::sub_at(rest0, delim(), dpos)) by {
        assert(rest0[dpos] == '-' && rest0[dpos + 1] == '-' && rest0[dpos + 2] == '-');
        assert(rest0.subrange(dpos, dpos + 3) =~= delim());
    }
    assert(forall|j: int| 0 <= j < dpos ==> !crate::text::sub_at(rest0, delim(), j)) by {
        crate::text::lemma_find_sub(m, delim());
        assert forall|j: int| 0 <= j < dpos implies !crate::text::sub_at(rest0, delim(), j) by {
            if j + 3 <= m.len() {
                assert(!crate::text::sub_at(m, delim(), j));
                if crate::text::sub_at(rest0, delim(), j) {
                    assert(m.subrange(j, j + 3) =~= rest0.subrange(j, j + 3));
                }
            } else {
                // the window covers the newline after the block
                if crate::text::sub_at(rest0, delim(), j) {
                    assert(rest0.subrange(j, j + 3)[m.len() - j] == '\n');
                    assert(delim()[m.len() - j] != '\n');
                }
            }
        }
    }
    let fs = find_sub(rest0, delim());
    assert(fs matches Some(i) && i == dpos) by {
        match fs {
            None => {
                assert(!crate::text::sub_at(rest0, delim(), dpos));
            },
            Some(i) => {
                if i < dpos {
                    assert(!crate::text::sub_at(rest0, delim(), i));
                }
                if i > dpos {
                    assert(!crate::text::sub_at(rest0, delim(), dpos));
                }
            },
        }
    }
    assert(rest0.subrange(0, dpos) =~= m + seq!['\n']);
    assert(rest0.subrange(dpos + 3, rest0.len() as int) =~= b);
}

/// A document missing the opening delimiter fails with exactly the
/// opening-delimiter error; one whose remainder holds no second delimiter
/// fails with exactly the closing-delimiter error; extraction succeeds
/// only when the first line is the delimiter and a second one follows.
/// Nothing is ever silently truncated.
pub proof fn lemma_malformed_rejected(s: Seq<char>)
    ensures
        lines_of(s).len() > 0 && lines_of(s)[0] != delim() ==> spec_extract(s) == Err::<
            (Seq<char>, Seq<char>),
            ExtractError,
        >(ExtractError::MissingOpeningDelimiter),
        (lines_of(s).len() == 0 || lines_of(s)[0] == delim()) && find_sub(
            join_lines(
                if lines_of(s).len() == 0 {
                    lines_of(s)
                } else {
                    lines_of(s).subrange(1, lines_of(s).len() as int)
                },
            ),
            delim(),
        ) is None ==> spec_extract(s) == Err::<(Seq<char>, Seq<char>), ExtractError>(
            ExtractError::MissingClosingDelimiter,
        ),
        spec_extract(s) is Ok ==> lines_of(s).len() > 0 && lines_of(s)[0] == delim(),
{
    if spec_extract(s) is Ok {
        if lines_of(s).len() == 0 {
            let rest = join_lines(lines_of(s));
            assert(rest.len() == 0);
            assert(delim().len() == 3);
            assert(find_sub(rest, delim()) is None);
        }
    }
}

} // verus!
