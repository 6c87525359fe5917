//! The ordered, filtering, symlink-resolving directory walk, as a verified
//! state machine. The walker owns the stack of pending relative paths and
//! all decisions: classification, exclusion pruning, the empty-directory
//! policy, and the descending push order that makes the pop order strictly
//! ascending per directory. The caller performs the filesystem reads and
//! hands their plain results in; it never decides anything.

use vstd::prelude::*;

use crate::TarError;
use crate::bytes::{
    copy_bytes, copy_components, lemma_sort_desc_ensures, sort_desc, sort_desc_exec, views_of,
};
use crate::pattern::{regex_match, utf8_check, Pattern};

verus! {

use vstd::utf8::valid_utf8;

/// The kind of one archive member. A symlink's kind carries the resolved
/// target path, but the member keeps the original name and is encoded as a
/// plain directory or file: the archive never records symlink-ness.
pub enum DirWalkType {
    Directory,
    File,
    SymlinkToFile(Vec<u8>),
    SymlinkToDirectory(Vec<u8>),
}

impl DirWalkType {
    /// Whether the member is encoded as a directory: a real directory or a
    /// resolved symlink to one. Everything else is encoded as a plain file;
    /// no other member kind exists.
    pub fn is_directory_member(&self) -> (r: bool)
        ensures
            r == (*self is Directory || *self is SymlinkToDirectory),
    {
        match self {
            DirWalkType::Directory => true,
            DirWalkType::SymlinkToDirectory(_) => true,
            DirWalkType::File => false,
            DirWalkType::SymlinkToFile(_) => false,
        }
    }
}

/// One walk result: a logical archive member.
pub struct DirWalkItem {
    /// Where the member's bytes are read from (for symlinks, the resolved
    /// target).
    pub abspath: Vec<u8>,
    /// Path components from the traversal root to the member.
    pub relpath: Vec<Vec<u8>>,
    pub typ: DirWalkType,
    pub size: Option<u64>,
}

impl DirWalkItem {
    /// Where the member's bytes are read from: the resolved target for a
    /// symlink to a file, the member's own location otherwise.
    pub fn content_path(&self) -> (r: &Vec<u8>)
        ensures
            self.typ matches DirWalkType::SymlinkToFile(p) ==> r@ == p@,
            !(self.typ is SymlinkToFile) ==> r@ == self.abspath@,
    {
        match &self.typ {
            DirWalkType::SymlinkToFile(p) => p,
            _ => &self.abspath,
        }
    }
}

/// What a symlink's canonical target turned out to be: a directory comes
/// with its immediate children, so the walk can descend into it like any
/// other directory.
pub enum ResolvedNode {
    Dir { children: Vec<Vec<u8>> },
    File,
    Other,
}

/// A resolved symlink target, as plain values.
pub struct SymlinkTarget {
    pub path: Vec<u8>,
    pub size: u64,
    pub node: ResolvedNode,
}

/// What the filesystem said about one pending path: the walker's input
/// event. `Symlink { target: None }` is a link whose target could not be
/// resolved.
pub enum FsNode {
    File { size: u64 },
    Dir { children: Vec<Vec<u8>> },
    Symlink { target: Option<SymlinkTarget> },
    Other,
}

/// A basename survives when no exclusion pattern matches it.
pub open spec fn allowed_by(pats: Seq<Pattern>, name: Seq<u8>) -> bool {
    forall|k: int| 0 <= k < pats.len() ==> !regex_match(#[trigger] pats[k].src(), name)
}

/// Whether every child basename is valid UTF-8 (the pattern engine works on
/// text; an undecodable name is fatal).
pub open spec fn all_utf8(children: Seq<Seq<u8>>) -> bool {
    forall|k: int| 0 <= k < children.len() ==> valid_utf8(#[trigger] children[k])
}

/// The children that survive exclusion, in listing order.
pub open spec fn allowed_filter(children: Seq<Seq<u8>>, pats: Seq<Pattern>) -> Seq<Seq<u8>> {
    children.filter(|c: Seq<u8>| allowed_by(pats, c))
}

/// Components joined with a leading separator each: `joined([a, b])` is
/// `"/a/b"`.
pub open spec fn joined(rel: Seq<Seq<u8>>) -> Seq<u8>
    decreases rel.len(),
{
    if rel.len() == 0 {
        Seq::<u8>::empty()
    } else {
        joined(rel.drop_last()) + seq![47u8] + rel.last()
    }
}

/// The absolute path of a member: the traversal base plus its components.
pub open spec fn abs_of(basedir: Seq<u8>, rel: Seq<Seq<u8>>) -> Seq<u8> {
    basedir + joined(rel)
}

/// The stack of pending relative paths, as pure sequences.
pub open spec fn stack_view(st: Seq<Vec<Vec<u8>>>) -> Seq<Seq<Seq<u8>>> {
    st.map_values(|r: Vec<Vec<u8>>| views_of(r@))
}

/// What a directory pushes: its surviving children, sorted descending so
/// that pops are ascending, each as the directory's path plus the child's
/// basename.
pub open spec fn push_batch(rel: Seq<Seq<u8>>, kept: Seq<Seq<u8>>) -> Seq<Seq<Seq<u8>>> {
    sort_desc(kept).map_values(|b: Seq<u8>| rel.push(b))
}

/// The contract of one walk step on a directory listing, whether the
/// directory is the popped path itself (`link` is `None`) or a symlink's
/// resolved target (`link` carries the target path and size): fatal on an
/// undecodable basename; silently skipped when pruning is on and no child
/// survives; otherwise the member is emitted and the surviving children
/// are pushed in descending order on top of the stack, so the walk
/// descends into the directory either way.
pub open spec fn dir_step_result(
    pre: DirWalkIterator,
    post: DirWalkIterator,
    relv: Seq<Seq<u8>>,
    ch: Seq<Seq<u8>>,
    link: Option<(Seq<u8>, u64)>,
    r: Result<Option<DirWalkItem>, TarError>,
) -> bool {
    let kept = allowed_filter(ch, pre.ignored_filenames@);
    if !all_utf8(ch) {
        &&& r == Err::<Option<DirWalkItem>, TarError>(TarError::Traversal)
        &&& post.remaining == pre.remaining
    } else if kept.len() == 0 && pre.empty_dirs_ignored {
        &&& r == Ok::<Option<DirWalkItem>, TarError>(None)
        &&& post.remaining == pre.remaining
    } else {
        &&& (r matches Ok(o) && o matches Some(item)
            && (link is None ==> item.typ is Directory && item.size is None)
            && (link matches Some(lt) ==> (item.typ matches DirWalkType::SymlinkToDirectory(q)
                && q@ == lt.0 && item.size == Some(lt.1)))
            && views_of(item.relpath@) == relv && item.abspath@ == abs_of(pre.basedir@, relv))
        &&& stack_view(post.remaining@) == stack_view(pre.remaining@) + push_batch(relv, kept)
        &&& post.remaining@.len() == pre.remaining@.len() + kept.len()
    }
}

/// The contract of one walk step on a symlink met while resolution is on:
/// fatal when the target could not be resolved or is no file and no
/// directory; a file target is emitted as a plain member carrying the
/// resolved path; a directory target is walked into like any directory.
pub open spec fn symlink_step_result(
    pre: DirWalkIterator,
    post: DirWalkIterator,
    relv: Seq<Seq<u8>>,
    target: Option<SymlinkTarget>,
    r: Result<Option<DirWalkItem>, TarError>,
) -> bool {
    match target {
        None => {
            &&& r == Err::<Option<DirWalkItem>, TarError>(TarError::Traversal)
            &&& post.remaining == pre.remaining
        },
        Some(t) => match t.node {
            ResolvedNode::Other => {
                &&& r == Err::<Option<DirWalkItem>, TarError>(TarError::Traversal)
                &&& post.remaining == pre.remaining
            },
            ResolvedNode::File => {
                &&& (r matches Ok(o) && o matches Some(item) && item.typ matches
                    DirWalkType::SymlinkToFile(q) && q@ == t.path@ && item.size == Some(t.size)
                    && views_of(item.relpath@) == relv && item.abspath@ == abs_of(
                    pre.basedir@,
                    relv,
                ))
                &&& post.remaining == pre.remaining
            },
            ResolvedNode::Dir { children } => dir_step_result(
                pre,
                post,
                relv,
                views_of(children@),
                Some((t.path@, t.size)),
                r,
            ),
        },
    }
}

/// One unfolding of the exclusion filter: the last child is kept exactly
/// when it is allowed.
proof fn lemma_allowed_filter_step(s: Seq<Seq<u8>>, pats: Seq<Pattern>)
    requires
        s.len() > 0,
    ensures
        allowed_by(pats, s.last()) ==> allowed_filter(s, pats) == allowed_filter(
            s.drop_last(),
            pats,
        ).push(s.last()),
        !allowed_by(pats, s.last()) ==> allowed_filter(s, pats) == allowed_filter(
            s.drop_last(),
            pats,
        ),
{
    reveal_with_fuel(Seq::<_>::filter, 2);
}

/// Tests one basename against every exclusion pattern: kept only when none
/// matches. A basename the pattern engine cannot read is fatal.
pub fn is_allowed_name(p: &Vec<u8>, i: &Vec<Pattern>) -> (r: Result<bool, TarError>)
    ensures
        valid_utf8(p@) ==> r == Ok::<bool, TarError>(allowed_by(i@, p@)),
        !valid_utf8(p@) ==> r == Err::<bool, TarError>(TarError::Traversal),
{
    if !utf8_check(p) {
        return Err(TarError::Traversal);
    }
    let n = i.len();
    let mut k: usize = 0;
    while k < n
        invariant
            n == i@.len(),
            k <= n,
            valid_utf8(p@),
            forall|m: int| 0 <= m < k ==> !regex_match(#[trigger] i@[m].src(), p@),
        decreases n - k,
    {
        if i[k].is_match(p) {
            return Ok(false);
        }
        k = k + 1;
    }
    Ok(true)
}

/// The walk state: options, the exclusion patterns, and the stack of
/// pending paths, owned exclusively by the walker.
pub struct DirWalkIterator {
    pub empty_dirs_ignored: bool,
    pub symlinks_should_abort: bool,
    pub ignored_filenames: Vec<Pattern>,
    pub remaining: Vec<Vec<Vec<u8>>>,
    pub basedir: Vec<u8>,
}

impl DirWalkIterator {
    /// A walk over `remaining` (normally the single root), relative to
    /// `basedir`.
    pub fn new(
        basedir: Vec<u8>,
        remaining: Vec<Vec<Vec<u8>>>,
        ignored_filenames: Vec<Pattern>,
        empty_dirs_ignored: bool,
        symlinks_should_abort: bool,
    ) -> (r: DirWalkIterator)
        ensures
            r.basedir == basedir,
            r.remaining == remaining,
            r.ignored_filenames == ignored_filenames,
            r.empty_dirs_ignored == empty_dirs_ignored,
            r.symlinks_should_abort == symlinks_should_abort,
    {
        DirWalkIterator {
            empty_dirs_ignored,
            symlinks_should_abort,
            ignored_filenames,
            remaining,
            basedir,
        }
    }

    /// Pops the next pending path: the most recently pushed, so an entire
    /// directory's batch drains (depth first) before an earlier sibling.
    pub fn next_path(&mut self) -> (r: Option<Vec<Vec<u8>>>)
        ensures
            final(self).basedir == old(self).basedir,
            final(self).ignored_filenames == old(self).ignored_filenames,
            final(self).empty_dirs_ignored == old(self).empty_dirs_ignored,
            final(self).symlinks_should_abort == old(self).symlinks_should_abort,
            old(self).remaining@.len() == 0 ==> (r is None && final(self).remaining@ == old(
                self,
            ).remaining@),
            old(self).remaining@.len() > 0 ==> (r matches Some(p) && views_of(p@) == stack_view(
                old(self).remaining@,
            ).last() && final(self).remaining@ == old(self).remaining@.drop_last()),
    {
        let r = self.remaining.pop();
        proof {
            if old(self).remaining@.len() > 0 {
                assert(stack_view(old(self).remaining@).last() == views_of(
                    old(self).remaining@.last()@,
                ));
                assert(old(self).remaining@.subrange(0, old(self).remaining@.len() - 1)
                    =~= old(self).remaining@.drop_last());
            }
        }
        r
    }

    /// One walk step: classifies the popped path from what the filesystem
    /// said, prunes, pushes, and emits at most one member.
    #[verifier::loop_isolation(false)]
    pub fn step(&mut self, relpath: Vec<Vec<u8>>, node: FsNode) -> (r: Result<
        Option<DirWalkItem>,
        TarError,
    >)
        ensures
            final(self).empty_dirs_ignored == old(self).empty_dirs_ignored,
            final(self).symlinks_should_abort == old(self).symlinks_should_abort,
            final(self).ignored_filenames == old(self).ignored_filenames,
            final(self).basedir == old(self).basedir,
            node matches FsNode::File { size } ==> (r matches Ok(o) && o matches Some(item)
                && item.typ is File && item.size == Some(size) && views_of(item.relpath@)
                == views_of(relpath@) && item.abspath@ == abs_of(
                old(self).basedir@,
                views_of(relpath@),
            ) && final(self).remaining == old(self).remaining),
            node is Other ==> (r == Err::<Option<DirWalkItem>, TarError>(TarError::Traversal)
                && final(self).remaining == old(self).remaining),
            (node is Symlink && old(self).symlinks_should_abort) ==> (r == Err::<
                Option<DirWalkItem>,
                TarError,
            >(TarError::SymlinkEncountered) && final(self).remaining == old(self).remaining),
            node matches FsNode::Symlink { target } ==> (!old(self).symlinks_should_abort
                ==> symlink_step_result(
                *old(self),
                *final(self),
                views_of(relpath@),
                target,
                r,
            )),
            node matches FsNode::Dir { children } ==> dir_step_result(
                *old(self),
                *final(self),
                views_of(relpath@),
                views_of(children@),
                None::<(Seq<u8>, u64)>,
                r,
            ),
    {
        match node {
            FsNode::File { size } => {
                let abspath = abs_path(&self.basedir, &relpath);
                Ok(Some(DirWalkItem { abspath, relpath, typ: DirWalkType::File, size: Some(size) }))
            },
            FsNode::Other => Err(TarError::Traversal),
            FsNode::Symlink { target } => {
                if self.symlinks_should_abort {
                    return Err(TarError::SymlinkEncountered);
                }
                match target {
                    None => Err(TarError::Traversal),
                    Some(t) => {
                        let SymlinkTarget { path, size, node: tnode } = t;
                        match tnode {
                            ResolvedNode::Other => Err(TarError::Traversal),
                            ResolvedNode::File => {
                                let abspath = abs_path(&self.basedir, &relpath);
                                Ok(
                                    Some(
                                        DirWalkItem {
                                            abspath,
                                            relpath,
                                            typ: DirWalkType::SymlinkToFile(path),
                                            size: Some(size),
                                        },
                                    ),
                                )
                            },
                            ResolvedNode::Dir { children } => self.dir_step(
                                relpath,
                                children,
                                Some((path, size)),
                            ),
                        }
                    },
                }
            },
            FsNode::Dir { children } => self.dir_step(relpath, children, None),
        }
    }

    /// One directory listing handled: shared by a real directory and a
    /// symlink that resolves to one. Filters the children, applies the
    /// empty-directory policy, pushes the survivors sorted descending, and
    /// emits the member.
    #[verifier::loop_isolation(false)]
    fn dir_step(
        &mut self,
        relpath: Vec<Vec<u8>>,
        children: Vec<Vec<u8>>,
        link: Option<(Vec<u8>, u64)>,
    ) -> (r: Result<Option<DirWalkItem>, TarError>)
        ensures
            final(self).empty_dirs_ignored == old(self).empty_dirs_ignored,
            final(self).symlinks_should_abort == old(self).symlinks_should_abort,
            final(self).ignored_filenames == old(self).ignored_filenames,
            final(self).basedir == old(self).basedir,
            link is None ==> dir_step_result(
                *old(self),
                *final(self),
                views_of(relpath@),
                views_of(children@),
                None::<(Seq<u8>, u64)>,
                r,
            ),
            link matches Some(lt) ==> dir_step_result(
                *old(self),
                *final(self),
                views_of(relpath@),
                views_of(children@),
                Some((lt.0@, lt.1)),
                r,
            ),
    {
        let ghost pre = *old(self);
        let ghost ch = views_of(children@);
        let n = children.len();
        let mut kept: Vec<Vec<u8>> = Vec::new();
        let mut k: usize = 0;
        while k < n
            invariant
                *self == pre,
                n == children@.len(),
                k <= n,
                forall|m: int| 0 <= m < k ==> valid_utf8(#[trigger] views_of(children@)[m]),
                views_of(kept@) =~= allowed_filter(
                    views_of(children@).take(k as int),
                    pre.ignored_filenames@,
                ),
            decreases n - k,
        {
            let ghost prefix = views_of(children@).take(k as int);
            let ghost kept0 = views_of(kept@);
            match is_allowed_name(&children[k], &self.ignored_filenames) {
                Err(_) => {
                    proof {
                        assert(!valid_utf8(views_of(children@)[k as int]));
                    }
                    return Err(TarError::Traversal);
                },
                Ok(keep) => {
                    if keep {
                        kept.push(copy_bytes(&children[k]));
                        proof {
                            assert(views_of(kept@) =~= kept0.push(
                                views_of(children@)[k as int],
                            ));
                        }
                    }
                },
            }
            k = k + 1;
            proof {
                let pats = pre.ignored_filenames@;
                let prefix1 = views_of(children@).take(k as int);
                assert(prefix1.drop_last() =~= prefix);
                assert(prefix1.last() == views_of(children@)[k - 1]);
                lemma_allowed_filter_step(prefix1, pats);
                assert(views_of(kept@) =~= allowed_filter(prefix1, pats));
            }
        }
        proof {
            assert(views_of(children@).take(n as int) =~= views_of(children@));
            assert(all_utf8(ch));
        }
        let ghost keptv = allowed_filter(ch, pre.ignored_filenames@);
        if kept.len() == 0 && self.empty_dirs_ignored {
            return Ok(None);
        }
        let sorted = sort_desc_exec(kept);
        let ghost sortedv = views_of(sorted@);
        let ghost relv = views_of(relpath@);
        let ghost stack0 = stack_view(self.remaining@);
        let ghost len0 = self.remaining@.len();
        let sn = sorted.len();
        let mut t: usize = 0;
        while t < sn
            invariant
                sn == sorted@.len(),
                t <= sn,
                views_of(sorted@) == sortedv,
                views_of(relpath@) == relv,
                self.basedir == pre.basedir,
                self.ignored_filenames == pre.ignored_filenames,
                self.empty_dirs_ignored == pre.empty_dirs_ignored,
                self.symlinks_should_abort == pre.symlinks_should_abort,
                self.remaining@.len() == len0 + t,
                stack_view(self.remaining@) =~= stack0 + sortedv.take(t as int).map_values(
                    |b: Seq<u8>| relv.push(b),
                ),
            decreases sn - t,
        {
            let mut p = copy_components(&relpath);
            p.push(copy_bytes(&sorted[t]));
            proof {
                assert(views_of(p@) =~= relv.push(sortedv[t as int]));
            }
            let ghost st_before = self.remaining@;
            self.remaining.push(p);
            t = t + 1;
            proof {
                assert(stack_view(st_before.push(p)) =~= stack_view(st_before).push(
                    views_of(p@),
                ));
                assert(sortedv.take(t as int).drop_last() =~= sortedv.take(t - 1));
                assert(sortedv.take(t as int).map_values(|b: Seq<u8>| relv.push(b))
                    =~= sortedv.take(t - 1).map_values(|b: Seq<u8>| relv.push(b)).push(
                    relv.push(sortedv[t - 1]),
                ));
                assert(stack_view(self.remaining@) =~= stack0 + sortedv.take(
                    t as int,
                ).map_values(|b: Seq<u8>| relv.push(b)));
            }
        }
        proof {
            lemma_sort_desc_ensures(keptv);
            assert(sortedv.take(sn as int) =~= sortedv);
            assert(sortedv == sort_desc(keptv));
            assert(stack_view(self.remaining@) =~= stack0 + push_batch(relv, keptv));
        }
        let abspath = abs_path(&self.basedir, &relpath);
        match link {
            None => Ok(
                Some(
                    DirWalkItem {
                        abspath,
                        relpath,
                        typ: DirWalkType::Directory,
                        size: None,
                    },
                ),
            ),
            Some((p, s)) => Ok(
                Some(
                    DirWalkItem {
                        abspath,
                        relpath,
                        typ: DirWalkType::SymlinkToDirectory(p),
                        size: Some(s),
                    },
                ),
            ),
        }
    }
}

/// The location a member is read from: the base directory, then each
/// component behind a separator.
pub fn abs_path(basedir: &Vec<u8>, rel: &Vec<Vec<u8>>) -> (r: Vec<u8>)
    ensures
        r@ == abs_of(basedir@, views_of(rel@)),
{
    let mut r = copy_bytes(basedir);
    let n = rel.len();
    let mut i: usize = 0;
    assert(joined(views_of(rel@).take(0)) =~= Seq::<u8>::empty());
    while i < n
        invariant
            n == rel@.len(),
            i <= n,
            r@ =~= basedir@ + joined(views_of(rel@).take(i as int)),
        decreases n - i,
    {
        r.push(47u8);
        let mut c = copy_bytes(&rel[i]);
        r.append(&mut c);
        i = i + 1;
        proof {
            let pre1 = views_of(rel@).take(i as int);
            assert(pre1.drop_last() =~= views_of(rel@).take(i - 1));
            assert(pre1.last() == views_of(rel@)[i - 1]);
            assert(r@ =~= basedir@ + joined(pre1));
        }
    }
    assert(views_of(rel@).take(n as int) =~= views_of(rel@));
    r
}

} // verus!
