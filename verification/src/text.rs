//! Character-sequence utilities shared by the frontmatter extractor and the
//! token-stream transformer: substring search, replacement, line splitting
//! in the style of the standard library, trimming, and conversions between
//! `String` and `Vec<char>`.

use vstd::prelude::*;
use vstd::string::*;

verus! {

/// The pattern `pat` occurs in `s` at position `i`.
pub open spec fn sub_at(s: Seq<char>, pat: Seq<char>, i: int) -> bool {
    0 <= i && i + pat.len() <= s.len() && s.subrange(i, i + pat.len() as int) == pat
}

/// Position of the first occurrence of `pat` in `s`, if any.
pub open spec fn find_sub(s: Seq<char>, pat: Seq<char>) -> Option<int>
    decreases s.len(),
{
    if pat.len() > s.len() {
        None
    } else if s.subrange(0, pat.len() as int) == pat {
        Some(0)
    } else if s.len() == 0 {
        None
    } else {
        match find_sub(s.subrange(1, s.len() as int), pat) {
            None => None,
            Some(i) => Some(i + 1),
        }
    }
}

/// `find_sub` returns the least position at which `pat` occurs, or `None`
/// when it occurs nowhere.
pub proof fn lemma_find_sub(s: Seq<char>, pat: Seq<char>)
    ensures
        match find_sub(s, pat) {
            Some(i) => sub_at(s, pat, i) && (forall|j: int| 0 <= j < i ==> !sub_at(s, pat, j)),
            None => forall|i: int| !sub_at(s, pat, i),
        },
    decreases s.len(),
{
    if pat.len() > s.len() {
        assert forall|i: int| !sub_at(s, pat, i) by {}
    } else if s.subrange(0, pat.len() as int) == pat {
        assert(sub_at(s, pat, 0));
    } else if s.len() == 0 {
        assert(forall|i: int| !sub_at(s, pat, i));
    } else {
        let t = s.subrange(1, s.len() as int);
        lemma_find_sub(t, pat);
        assert forall|j: int| 0 <= j && j + pat.len() <= t.len() implies #[trigger] t.subrange(
            j,
            j + pat.len() as int,
        ) =~= s.subrange(j + 1, j + 1 + pat.len() as int) by {}
        assert(!sub_at(s, pat, 0));
        match find_sub(t, pat) {
            None => {
                assert forall|i: int| !sub_at(s, pat, i) by {
                    if 1 <= i && i + pat.len() <= s.len() {
                        assert(!sub_at(t, pat, i - 1));
                    }
                }
            },
            Some(i) => {
                assert(sub_at(t, pat, i));
                assert(sub_at(s, pat, i + 1));
                assert forall|j: int| 0 <= j < i + 1 implies !sub_at(s, pat, j) by {
                    if 1 <= j {
                        assert(!sub_at(t, pat, j - 1));
                    }
                }
            },
        }
    }
}

/// Copy of `s[from..to]`.
pub fn subvec(s: &Vec<char>, from: usize, to: usize) -> (r: Vec<char>)
    requires
        from <= to <= s.len(),
    ensures
        r@ == s@.subrange(from as int, to as int),
{
    let mut r: Vec<char> = Vec::new();
    let mut i: usize = from;
    while i < to
        invariant
            from <= i <= to <= s.len(),
            r@ == s@.subrange(from as int, i as int),
        decreases to - i,
    {
        r.push(s[i]);
        assert(s@.subrange(from as int, i as int).push(s@[i as int])
            =~= s@.subrange(from as int, i as int + 1));
        i = i + 1;
    }
    r
}

/// Character-wise equality of two vectors.
pub fn vec_eq(a: &Vec<char>, b: &Vec<char>) -> (r: bool)
    ensures
        r == (a@ == b@),
{
    if a.len() != b.len() {
        assert(a@ != b@);
        return false;
    }
    let mut i: usize = 0;
    while i < a.len()
        invariant
            i <= a.len(),
            a.len() == b.len(),
            forall|k: int| 0 <= k < i ==> a@[k] == b@[k],
        decreases a.len() - i,
    {
        if a[i] != b[i] {
            return false;
        }
        i = i + 1;
    }
    assert(a@ =~= b@);
    true
}

/// Whether `pat` occurs in `s` at position `i`.
fn is_sub_at(s: &Vec<char>, pat: &Vec<char>, i: usize) -> (r: bool)
    requires
        i + pat.len() <= s.len(),
    ensures
        r == sub_at(s@, pat@, i as int),
{
    let mut j: usize = 0;
    while j < pat.len()
        invariant
            j <= pat.len(),
            i + pat.len() <= s.len(),
            forall|k: int| 0 <= k < j ==> s@[i + k] == pat@[k],
        decreases pat.len() - j,
    {
        if s[i + j] != pat[j] {
            assert(s@.subrange(i as int, i + pat@.len())[j as int] != pat@[j as int]);
            return false;
        }
        j = j + 1;
    }
    assert(s@.subrange(i as int, i + pat@.len()) =~= pat@);
    true
}

/// First occurrence of `pat` in `s`, matching `find_sub`.
pub fn find_sub_exec(s: &Vec<char>, pat: &Vec<char>) -> (r: Option<usize>)
    ensures
        match r {
            Some(i) => find_sub(s@, pat@) == Some(i as int),
            None => find_sub(s@, pat@) is None,
        },
{
    proof {
        lemma_find_sub(s@, pat@);
    }
    if pat.len() > s.len() {
        return None;
    }
    if pat.len() == 0 {
        assert(s@.subrange(0, 0) =~= pat@);
        return Some(0);
    }
    let bound = s.len() - pat.len();
    let mut i: usize = 0;
    while i <= bound
        invariant
            1 <= pat.len() <= s.len(),
            bound == s.len() - pat.len(),
            i <= bound + 1,
            forall|j: int| 0 <= j < i ==> !sub_at(s@, pat@, j),
            match find_sub(s@, pat@) {
                Some(k) => sub_at(s@, pat@, k) && (forall|j: int| 0 <= j < k ==> !sub_at(
                    s@,
                    pat@,
                    j,
                )),
                None => forall|j: int| !sub_at(s@, pat@, j),
            },
        decreases s.len() - i,
    {
        if is_sub_at(s, pat, i) {
            return Some(i);
        }
        i = i + 1;
    }
    assert(forall|j: int| 0 <= j ==> !sub_at(s@, pat@, j));
    None
}

/// `s` with every occurrence of `pat` replaced by `rep`, scanning left to
/// right; `s` itself when `pat` is empty.
pub open spec fn replace_all(s: Seq<char>, pat: Seq<char>, rep: Seq<char>) -> Seq<char>
    decreases s.len(),
    via replace_all_dec
{
    if pat.len() == 0 {
        s
    } else {
        match find_sub(s, pat) {
            None => s,
            Some(i) => s.subrange(0, i) + rep + replace_all(
                s.subrange(i + pat.len() as int, s.len() as int),
                pat,
                rep,
            ),
        }
    }
}

#[via_fn]
proof fn replace_all_dec(s: Seq<char>, pat: Seq<char>, rep: Seq<char>) {
    if pat.len() != 0 {
        lemma_find_sub(s, pat);
    }
}

/// Executable replacement, matching `replace_all`.
pub fn replace_all_exec(s: &Vec<char>, pat: &Vec<char>, rep: &Vec<char>) -> (r: Vec<char>)
    requires
        pat.len() >= 1,
    ensures
        r@ == replace_all(s@, pat@, rep@),
    decreases s@.len(),
{
    proof {
        lemma_find_sub(s@, pat@);
    }
    match find_sub_exec(s, pat) {
        None => subvec(s, 0, s.len()),
        Some(i) => {
            assert(sub_at(s@, pat@, i as int));
            let n = s.len();
            let mut r = subvec(s, 0, i);
            let mut mid = subvec(rep, 0, rep.len());
            let tail = subvec(s, i + pat.len(), n);
            let mut rest = replace_all_exec(&tail, pat, rep);
            r.append(&mut mid);
            r.append(&mut rest);
            assert(rep@.subrange(0, rep@.len() as int) =~= rep@);
            assert(s@.subrange(0, s@.len() as int) =~= s@);
            r
        },
    }
}

/// Position of the first occurrence of `c` in `s`, if any.
pub open spec fn find_char(s: Seq<char>, c: char) -> Option<int>
    decreases s.len(),
{
    if s.len() == 0 {
        None
    } else if s[0] == c {
        Some(0)
    } else {
        match find_char(s.subrange(1, s.len() as int), c) {
            None => None,
            Some(i) => Some(i + 1),
        }
    }
}

/// `find_char` returns the least position holding `c`, or `None` when no
/// position does.
pub proof fn lemma_find_char(s: Seq<char>, c: char)
    ensures
        match find_char(s, c) {
            Some(i) => 0 <= i < s.len() && s[i] == c && (forall|j: int| 0 <= j < i ==> s[j] != c),
            None => forall|i: int| 0 <= i < s.len() ==> s[i] != c,
        },
    decreases s.len(),
{
    if s.len() == 0 {
    } else if s[0] == c {
    } else {
        let t = s.subrange(1, s.len() as int);
        lemma_find_char(t, c);
        match find_char(t, c) {
            None => {
                assert forall|i: int| 0 <= i < s.len() implies s[i] != c by {
                    if i >= 1 {
                        assert(t[i - 1] != c);
                    }
                }
            },
            Some(i) => {
                assert(s[i + 1] == t[i]);
                assert forall|j: int| 0 <= j < i + 1 implies s[j] != c by {
                    if j >= 1 {
                        assert(t[j - 1] != c);
                    }
                }
            },
        }
    }
}

/// First occurrence of `c`, matching `find_char`.
pub fn find_char_exec(s: &Vec<char>, c: char) -> (r: Option<usize>)
    ensures
        match r {
            Some(i) => find_char(s@, c) == Some(i as int),
            None => find_char(s@, c) is None,
        },
{
    proof {
        lemma_find_char(s@, c);
    }
    let mut i: usize = 0;
    while i < s.len()
        invariant
            i <= s.len(),
            forall|j: int| 0 <= j < i ==> s@[j] != c,
            match find_char(s@, c) {
                Some(k) => 0 <= k < s@.len() && s@[k] == c && (forall|j: int| 0 <= j < k
                    ==> s@[j] != c),
                None => forall|j: int| 0 <= j < s@.len() ==> s@[j] != c,
            },
        decreases s.len() - i,
    {
        if s[i] == c {
            return Some(i);
        }
        i = i + 1;
    }
    None
}

/// A line with a trailing carriage return removed, as the standard library's
/// line iterator does.
pub open spec fn strip_cr(l: Seq<char>) -> Seq<char> {
    if l.len() > 0 && l[l.len() - 1] == '\r' {
        l.subrange(0, l.len() - 1)
    } else {
        l
    }
}

fn strip_cr_exec(l: Vec<char>) -> (r: Vec<char>)
    ensures
        r@ == strip_cr(l@),
{
    if l.len() > 0 && l[l.len() - 1] == '\r' {
        subvec(&l, 0, l.len() - 1)
    } else {
        l
    }
}

/// The lines of `s`, split at newlines, each with a trailing carriage return
/// removed, a final line terminator producing no extra empty line: the
/// behaviour of the standard library's `lines`.
pub open spec fn lines_of(s: Seq<char>) -> Seq<Seq<char>>
    decreases s.len(),
    via lines_of_dec
{
    if s.len() == 0 {
        Seq::empty()
    } else {
        match find_char(s, '\n') {
            None => seq![strip_cr(s)],
            Some(i) => seq![strip_cr(s.subrange(0, i))] + lines_of(
                s.subrange(i + 1, s.len() as int),
            ),
        }
    }
}

#[via_fn]
proof fn lines_of_dec(s: Seq<char>) {
    if s.len() != 0 {
        lemma_find_char(s, '\n');
    }
}

/// Executable line splitting, matching `lines_of`.
pub fn lines_exec(s: &Vec<char>) -> (r: Vec<Vec<char>>)
    ensures
        r.deep_view() == lines_of(s@),
    decreases s@.len(),
{
    proof {
        lemma_find_char(s@, '\n');
    }
    let mut r: Vec<Vec<char>> = Vec::new();
    if s.len() == 0 {
        assert(r.deep_view() =~= lines_of(s@));
        return r;
    }
    match find_char_exec(s, '\n') {
        None => {
            r.push(strip_cr_exec(subvec(s, 0, s.len())));
            assert(s@.subrange(0, s@.len() as int) =~= s@);
            assert(r.deep_view() =~~= lines_of(s@));
            r
        },
        Some(i) => {
            let head = strip_cr_exec(subvec(s, 0, i));
            let tail = subvec(s, i + 1, s.len());
            let mut rest = lines_exec(&tail);
            r.push(head);
            r.append(&mut rest);
            assert(r.deep_view() =~~= lines_of(s@));
            r
        },
    }
}

/// The lines joined with single newlines.
pub open spec fn join_lines(ls: Seq<Seq<char>>) -> Seq<char>
    decreases ls.len(),
{
    if ls.len() == 0 {
        Seq::empty()
    } else if ls.len() == 1 {
        ls[0]
    } else {
        ls[0] + seq!['\n'] + join_lines(ls.subrange(1, ls.len() as int))
    }
}

/// Executable joining, matching `join_lines`.
pub fn join_exec(ls: &Vec<Vec<char>>, from: usize) -> (r: Vec<char>)
    requires
        from <= ls.len(),
    ensures
        r@ == join_lines(ls.deep_view().subrange(from as int, ls.deep_view().len() as int)),
    decreases ls.len() - from,
{
    let mut r: Vec<char> = Vec::new();
    if from >= ls.len() {
        assert(ls.deep_view().subrange(from as int, ls.deep_view().len() as int)
            =~~= Seq::<Seq<char>>::empty());
        return r;
    }
    let ghost tail = ls.deep_view().subrange(from as int, ls.deep_view().len() as int);
    let mut head = subvec(&ls[from], 0, ls[from].len());
    assert(head@ =~= ls.deep_view()[from as int]);
    r.append(&mut head);
    if from + 1 < ls.len() {
        let mut nl: Vec<char> = vec!['\n'];
        r.append(&mut nl);
        let mut rest = join_exec(ls, from + 1);
        r.append(&mut rest);
        assert(ls.deep_view().subrange(from as int + 1, ls.deep_view().len() as int)
            =~~= tail.subrange(1, tail.len() as int));
        assert(r@ =~= join_lines(tail));
    } else {
        assert(tail.len() == 1);
        assert(r@ =~= join_lines(tail));
    }
    r
}

/// The white-space property of the standard library's `char::is_whitespace`.
pub open spec fn is_space(c: char) -> bool {
    c == ' ' || c == '\t' || c == '\n' || c == '\u{b}' || c == '\u{c}' || c == '\r' || c
        == '\u{85}' || c == '\u{a0}' || c == '\u{1680}' || (c as u32 >= 0x2000 && c as u32
        <= 0x200a) || c == '\u{2028}' || c == '\u{2029}' || c == '\u{202f}' || c == '\u{205f}' || c
        == '\u{3000}'
}

fn is_space_exec(c: char) -> (r: bool)
    ensures
        r == is_space(c),
{
    c == ' ' || c == '\t' || c == '\n' || c == '\u{b}' || c == '\u{c}' || c == '\r' || c
        == '\u{85}' || c == '\u{a0}' || c == '\u{1680}' || (c as u32 >= 0x2000 && c as u32
        <= 0x200a) || c == '\u{2028}' || c == '\u{2029}' || c == '\u{202f}' || c == '\u{205f}' || c
        == '\u{3000}'
}

/// `s` without leading white space.
pub open spec fn trim_start(s: Seq<char>) -> Seq<char>
    decreases s.len(),
{
    if s.len() > 0 && is_space(s[0]) {
        trim_start(s.subrange(1, s.len() as int))
    } else {
        s
    }
}

/// `s` without trailing white space.
pub open spec fn trim_end(s: Seq<char>) -> Seq<char>
    decreases s.len(),
{
    if s.len() > 0 && is_space(s[s.len() - 1]) {
        trim_end(s.subrange(0, s.len() - 1))
    } else {
        s
    }
}

/// `s` without leading and trailing white space.
pub open spec fn trim(s: Seq<char>) -> Seq<char> {
    trim_end(trim_start(s))
}

fn trim_start_exec(s: Vec<char>) -> (r: Vec<char>)
    ensures
        r@ == trim_start(s@),
    decreases s@.len(),
{
    if s.len() > 0 && is_space_exec(s[0]) {
        trim_start_exec(subvec(&s, 1, s.len()))
    } else {
        s
    }
}

fn trim_end_exec(s: Vec<char>) -> (r: Vec<char>)
    ensures
        r@ == trim_end(s@),
    decreases s@.len(),
{
    if s.len() > 0 && is_space_exec(s[s.len() - 1]) {
        trim_end_exec(subvec(&s, 0, s.len() - 1))
    } else {
        s
    }
}

/// Executable trimming, matching `trim`.
pub fn trim_exec(s: Vec<char>) -> (r: Vec<char>)
    ensures
        r@ == trim(s@),
{
    trim_end_exec(trim_start_exec(s))
}

/// The characters of `s`.
pub fn str_to_chars(s: &str) -> (r: Vec<char>)
    ensures
        r@ == s@,
{
    let n = s.unicode_len();
    let mut r: Vec<char> = Vec::new();
    let mut i: usize = 0;
    while i < n
        invariant
            i <= n,
            n == s@.len(),
            r@ == s@.subrange(0, i as int),
        decreases n - i,
    {
        r.push(s.get_char(i));
        assert(s@.subrange(0, i as int).push(s@[i as int]) =~= s@.subrange(0, i as int + 1));
        i = i + 1;
    }
    assert(s@.subrange(0, s@.len() as int) =~= s@);
    r
}

/// Relies on `String::push`: appends the one character to the end of the
/// string.
#[verifier::external_body]
fn push_char(s: &mut String, c: char)
    ensures
        final(s)@ == old(s)@.push(c),
{
    s.push(c);
}

/// A `String` holding exactly the characters of `v`.
pub fn chars_to_string(v: &Vec<char>) -> (r: String)
    ensures
        r@ == v@,
{
    let mut r = String::new();
    let mut i: usize = 0;
    while i < v.len()
        invariant
            i <= v.len(),
            r@ == v@.subrange(0, i as int),
        decreases v.len() - i,
    {
        push_char(&mut r, v[i]);
        assert(v@.subrange(0, i as int).push(v@[i as int]) =~= v@.subrange(0, i as int + 1));
        i = i + 1;
    }
    assert(v@.subrange(0, v@.len() as int) =~= v@);
    r
}

/// The Unicode lowercasing of `s`, a function of the characters alone.
pub uninterp spec fn lower_of(s: Seq<char>) -> Seq<char>;

/// Relies on `str::to_lowercase`: the result depends on the characters of
/// the input alone.
#[verifier::external_body]
pub(crate) fn to_lowercase(s: &str) -> (r: String)
    ensures
        r@ == lower_of(s@),
{
    s.to_lowercase()
}

} // verus!
