//! The typed tree built by walking a source directory, and the decisions
//! the walk makes: how a directory entry is classified, how document and
//! subdirectory nodes accumulate, and how a directory's own metadata gets
//! its date back-filled from the newest direct document.

use crate::date::MAX_TIMESTAMP;
use crate::date::date_of_timestamp;
use crate::date::days_from_civil;
use crate::date::valid_date;
use crate::frontmatter::Frontmatter;
use crate::text::chars_to_string;
use crate::text::str_to_chars;
use crate::text::subvec;
use crate::text::vec_eq;
use vstd::prelude::*;

verus! {

/// One compiled filesystem entry: a document, or a directory with its
/// optional metadata and its children in traversal order. The path is the
/// source path, never the destination.
pub enum TreeNode {
    File { path: String, frontmatter: Frontmatter },
    Directory { path: String, info: Option<Frontmatter>, contents: Vec<TreeNode> },
}

/// The node's own metadata (not its children's) carries a valid date.
pub open spec fn node_wf(n: TreeNode) -> bool {
    match n {
        TreeNode::File { frontmatter, .. } => frontmatter.wf(),
        TreeNode::Directory { info, .. } => match info {
            Some(fm) => fm.wf(),
            None => true,
        },
    }
}

/// How the walk treats one directory entry.
#[derive(Clone, Copy, Debug, PartialEq, Eq, Structural)]
pub enum EntryKind {
    /// A nested directory: recurse into it.
    Subdirectory,
    /// The directory-info file: parse it into the directory's metadata.
    DirectoryInfo,
    /// A document: compile it into a `File` node.
    Document,
    /// Anything else: skip it.
    Ignored,
}

/// The name ends in the document extension and has a non-empty stem, so
/// the standard library would report `md` as its extension.
pub open spec fn is_md_name(name: Seq<char>) -> bool {
    name.len() >= 4 && name.subrange(name.len() - 3, name.len() as int) == ".md"@
}

/// The classification of one directory entry: directories are walked, the
/// `index.toml` file carries the directory's metadata, documents are
/// compiled, everything else is ignored.
pub open spec fn spec_classify(name: Seq<char>, is_dir: bool, is_file: bool) -> EntryKind {
    if is_dir {
        EntryKind::Subdirectory
    } else if !is_file {
        EntryKind::Ignored
    } else if name == "index.toml"@ {
        EntryKind::DirectoryInfo
    } else if is_md_name(name) {
        EntryKind::Document
    } else {
        EntryKind::Ignored
    }
}

/// Classifies one directory entry by its name and file type, matching
/// `spec_classify`.
pub fn classify_entry(name: &str, is_dir: bool, is_file: bool) -> (k: EntryKind)
    ensures
        k == spec_classify(name@, is_dir, is_file),
{
    if is_dir {
        return EntryKind::Subdirectory;
    }
    if !is_file {
        return EntryKind::Ignored;
    }
    let chars = str_to_chars(name);
    if vec_eq(&chars, &str_to_chars("index.toml")) {
        return EntryKind::DirectoryInfo;
    }
    if chars.len() >= 4 && vec_eq(&subvec(&chars, chars.len() - 3, chars.len()), &str_to_chars(".md")) {
        return EntryKind::Document;
    }
    EntryKind::Ignored
}

/// The file name with every trailing `.md` removed, the document's stem.
pub open spec fn stem_of(name: Seq<char>) -> Seq<char>
    decreases name.len(),
{
    if name.len() >= 3 && name.subrange(name.len() - 3, name.len() as int) == ".md"@ {
        stem_of(name.subrange(0, name.len() - 3))
    } else {
        name
    }
}

/// The stem of a document's file name, matching `stem_of`.
pub fn document_stem(name: &str) -> (r: String)
    ensures
        r@ == stem_of(name@),
{
    let chars = str_to_chars(name);
    let stem = stem_chars(chars);
    chars_to_string(&stem)
}

fn stem_chars(name: Vec<char>) -> (r: Vec<char>)
    ensures
        r@ == stem_of(name@),
    decreases name@.len(),
{
    if name.len() >= 3 && vec_eq(&subvec(&name, name.len() - 3, name.len()), &str_to_chars(".md")) {
        stem_chars(subvec(&name, 0, name.len() - 3))
    } else {
        name
    }
}

/// The state of walking one directory: its source path, the metadata seen
/// so far, the newest modification time among its direct documents, and
/// the children in traversal order.
pub struct DirAggregator {
    pub path: String,
    pub info: Option<Frontmatter>,
    pub last_updated: u64,
    pub contents: Vec<TreeNode>,
}

impl DirAggregator {
    /// The aggregator's invariant: a bounded timestamp, valid metadata,
    /// well-formed children.
    pub open spec fn wf(&self) -> bool {
        &&& self.last_updated <= MAX_TIMESTAMP
        &&& match self.info {
            Some(fm) => fm.wf(),
            None => true,
        }
        &&& forall|i: int| 0 <= i < self.contents@.len() ==> node_wf(#[trigger] self.contents@[i])
    }

    /// A fresh walk of the directory at `path`.
    pub fn new(path: String) -> (a: DirAggregator)
        ensures
            a.wf(),
            a.path@ == path@,
            a.info is None,
            a.last_updated == 0,
            a.contents@ == Seq::<TreeNode>::empty(),
    {
        let a = DirAggregator { path, info: None, last_updated: 0, contents: Vec::new() };
        assert(a.contents@ =~= Seq::<TreeNode>::empty());
        a
    }

    /// Takes the parsed directory-info file as the directory's metadata.
    pub fn set_info(&mut self, fm: Frontmatter)
        requires
            old(self).wf(),
            fm.wf(),
        ensures
            final(self).wf(),
            final(self).info == Some(fm),
            final(self).path == old(self).path,
            final(self).last_updated == old(self).last_updated,
            final(self).contents == old(self).contents,
    {
        self.info = Some(fm);
    }

    /// Appends a finished subdirectory node.
    pub fn record_subdirectory(&mut self, node: TreeNode)
        requires
            old(self).wf(),
            node_wf(node),
        ensures
            final(self).wf(),
            final(self).contents@ == old(self).contents@.push(node),
            final(self).path == old(self).path,
            final(self).info == old(self).info,
            final(self).last_updated == old(self).last_updated,
    {
        self.contents.push(node);
    }

    /// Appends a compiled document node under `<path>/<stem>` and folds its
    /// modification time into the directory's newest.
    pub fn record_document(&mut self, stem: &String, frontmatter: Frontmatter, mtime: u64)
        requires
            old(self).wf(),
            frontmatter.wf(),
            mtime <= MAX_TIMESTAMP,
        ensures
            final(self).wf(),
            final(self).contents@.len() == old(self).contents@.len() + 1,
            final(self).contents@.drop_last() == old(self).contents@,
            final(self).contents@.last() matches TreeNode::File { path, frontmatter: fm2 }
                && path@ == old(self).path@ + seq!['/'] + stem@ && fm2 == frontmatter,
            final(self).last_updated == if mtime > old(self).last_updated {
                mtime
            } else {
                old(self).last_updated
            },
            final(self).path == old(self).path,
            final(self).info == old(self).info,
    {
        let mut p = str_to_chars(self.path.as_str());
        p.push('/');
        let mut s = str_to_chars(stem.as_str());
        p.append(&mut s);
        assert(p@ =~= self.path@ + seq!['/'] + stem@);
        let node = TreeNode::File { path: chars_to_string(&p), frontmatter };
        self.contents.push(node);
        if mtime > self.last_updated {
            self.last_updated = mtime;
        }
        assert(final(self).contents@.drop_last() =~= old(self).contents@);
    }

    /// Closes the walk: the directory node with its children, its metadata
    /// date back-filled to the newest direct document's modification time,
    /// read as a calendar date.
    pub fn finish(self) -> (n: TreeNode)
        requires
            self.wf(),
        ensures
            node_wf(n),
            n matches TreeNode::Directory { path, info, contents } && path@ == self.path@
                && contents@ == self.contents@ && (match (self.info, info) {
                (Some(fm), Some(fm2)) => fm2.title@ == fm.title@ && fm2.description@
                    == fm.description@ && fm2.tags.deep_view() == fm.tags.deep_view()
                    && valid_date(fm2.date) && days_from_civil(fm2.date) == self.last_updated as int
                    / 86400,
                (None, None) => true,
                _ => false,
            }),
    {
        match self.info {
            None => TreeNode::Directory { path: self.path, info: None, contents: self.contents },
            Some(fm) => {
                let d = date_of_timestamp(self.last_updated);
                let filled = Frontmatter {
                    title: fm.title,
                    description: fm.description,
                    tags: fm.tags,
                    date: d,
                };
                TreeNode::Directory {
                    path: self.path,
                    info: Some(filled),
                    contents: self.contents,
                }
            },
        }
    }
}


} // verus!
