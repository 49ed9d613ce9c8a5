//! The decisions behind a managed scratch directory for tests: where the
//! directory lives, which paths are safe to own, what to do with the entry
//! found at a path, and what releasing a handle must clean up.
//!
//! Paths, labels and names are byte strings, as a path is on a Unix system.
//! The filesystem calls themselves are made by the caller, which hands the
//! observed state in and carries the decided steps out.
use vstd::prelude::*;

verus! {

/// The byte that separates the components of a path (`/`).
pub const SEPARATOR: u8 = 47;

/// The byte that joins a label to a context identifier (`-`).
pub const LABEL_JOINER: u8 = 45;

/// The byte `.`, which names the current directory, and doubled the parent.
pub const DOT: u8 = 46;

/// Holds when `p[s..e]` is a whole component of `p`: it starts at the
/// beginning or after a separator, ends at the end or before a separator, and
/// holds no separator.
pub open spec fn is_component(p: Seq<u8>, s: int, e: int) -> bool {
    &&& 0 <= s <= e <= p.len()
    &&& (s == 0 || p[s - 1] == SEPARATOR)
    &&& (e == p.len() || p[e] == SEPARATOR)
    &&& forall|k: int| s <= k < e ==> p[k] != SEPARATOR
}

/// Holds when `p[s..e]` names an entry: it is neither empty, nor `.`, nor
/// `..`.
pub open spec fn is_named(p: Seq<u8>, s: int, e: int) -> bool {
    &&& e > s
    &&& !(e - s == 1 && p[s] == DOT)
    &&& !(e - s == 2 && p[s] == DOT && p[s + 1] == DOT)
}

/// Holds when `p` names a directory that can safely be owned and deleted
/// recursively: at least one of its components names an entry. A path made
/// only of separators, `.` and `..` (`/`, `/.`, `/..`, `.`, the empty path)
/// is refused: it is a filesystem root, or the directory the process runs
/// in, or one of its ancestors.
pub open spec fn is_valid_base(p: Seq<u8>) -> bool {
    exists|s: int, e: int| is_component(p, s, e) && is_named(p, s, e)
}

/// Holds when `p` is a filesystem root: it starts with a separator and none
/// of its components names an entry (`/`, `//`, `/.`, `/./`, `/..`).
pub open spec fn is_root(p: Seq<u8>) -> bool {
    &&& p.len() > 0
    &&& p[0] == SEPARATOR
    &&& forall|s: int, e: int| is_component(p, s, e) ==> !is_named(p, s, e)
}

/// `name` placed under the directory `root`, with one separator between them
/// unless `root` already ends in one.
pub open spec fn joined(root: Seq<u8>, name: Seq<u8>) -> Seq<u8> {
    if root.len() == 0 {
        name
    } else if root.last() == SEPARATOR {
        root + name
    } else {
        root.push(SEPARATOR) + name
    }
}

/// The name of the directory that the execution context `ctx` uses for the
/// label `label`: `label-ctx`.
pub open spec fn unique_name(label: Seq<u8>, ctx: Seq<u8>) -> Seq<u8> {
    label.push(LABEL_JOINER) + ctx
}

/// How handles keep concurrently running tests apart.
#[derive(Clone, Copy, Debug, PartialEq, Eq, Structural)]
pub enum Isolation {
    /// Each execution context gets a directory of its own under the base path.
    PerCaller,
    /// All handles share the base path itself and take turns through a
    /// process-wide lock.
    Shared,
}

/// The directory that a handle owns, given the base path, the label, the
/// execution context and the isolation mode.
pub open spec fn target_of(base: Seq<u8>, label: Seq<u8>, ctx: Seq<u8>, isolation: Isolation) -> Seq<u8> {
    match isolation {
        Isolation::PerCaller => joined(base, unique_name(label, ctx)),
        Isolation::Shared => base,
    }
}

/// Appends all of `src` to `dst`.
fn push_all(dst: &mut Vec<u8>, src: &[u8])
    ensures
        final(dst)@ == old(dst)@ + src@,
{
    let ghost start = dst@;
    let mut i: usize = 0;
    while i < src.len()
        invariant
            0 <= i <= src@.len(),
            dst@ == start + src@.subrange(0, i as int),
        decreases src@.len() - i,
    {
        dst.push(src[i]);
        i += 1;
        assert(src@.subrange(0, i as int) == src@.subrange(0, i - 1).push(src@[i - 1]));
    }
    assert(src@.subrange(0, src@.len() as int) == src@);
}

/// Tells whether `base` may hold a scratch directory: one of its
/// components must name an entry, so that deleting it recursively can never
/// wipe out a filesystem root or the directory the process runs in.
pub fn is_valid_base_path(base: &[u8]) -> (r: bool)
    ensures
        r == is_valid_base(base@),
{
    let n = base.len();
    let mut s: usize = 0;
    let mut i: usize = 0;
    while i <= n
        invariant
            n == base@.len(),
            0 <= s <= i <= n + 1,
            i <= n ==> s <= i,
            i <= n ==> (s == 0 || base@[s - 1] == SEPARATOR),
            i <= n ==> forall|k: int| s <= k < i ==> base@[k] != SEPARATOR,
            forall|s2: int, e2: int|
                #![trigger is_component(base@, s2, e2)]
                is_component(base@, s2, e2) && e2 < i ==> !is_named(base@, s2, e2),
        decreases n + 1 - i,
    {
        if i == n || base[i] == SEPARATOR {
            assert(is_component(base@, s as int, i as int));
            let len = i - s;
            let named = len > 0 && !(len == 1 && base[s] == DOT) && !(len == 2 && base[s] == DOT
                && base[s + 1] == DOT);
            if named {
                return true;
            }
            assert forall|s2: int, e2: int|
                #![trigger is_component(base@, s2, e2)]
                is_component(base@, s2, e2) && e2 < i + 1 implies !is_named(base@, s2, e2) by {
                if e2 == i {
                    if s2 < s {
                        assert(base@[s - 1] == SEPARATOR);
                    } else if s2 > s {
                        assert(base@[s2 - 1] != SEPARATOR);
                    }
                }
            }
            if i == n {
                return false;
            }
            s = i + 1;
        }
        i += 1;
    }
    false
}

/// Tells whether `ctx` can identify an execution context: it must hold no
/// separator, so that the directory named after it is a single component and
/// no two contexts' directories nest.
pub fn is_plain_context_id(ctx: &[u8]) -> (r: bool)
    ensures
        r == has_no_separator(ctx@),
{
    let mut i: usize = 0;
    while i < ctx.len()
        invariant
            0 <= i <= ctx@.len(),
            forall|k: int| 0 <= k < i ==> ctx@[k] != SEPARATOR,
        decreases ctx@.len() - i,
    {
        if ctx[i] == SEPARATOR {
            return false;
        }
        i += 1;
    }
    true
}

/// Places `name` under the directory `root`, with a single separator between
/// them. Touches no filesystem.
pub fn join_path(root: &[u8], name: &[u8]) -> (r: Vec<u8>)
    ensures
        r@ == joined(root@, name@),
{
    let mut r: Vec<u8> = Vec::new();
    push_all(&mut r, root);
    if root.len() > 0 && root[root.len() - 1] != SEPARATOR {
        r.push(SEPARATOR);
    }
    push_all(&mut r, name);
    r
}

/// The name `label-ctx` of the directory that the execution context `ctx`
/// uses for `label`.
pub fn unique_dir_name(label: &[u8], ctx: &[u8]) -> (r: Vec<u8>)
    ensures
        r@ == unique_name(label@, ctx@),
{
    let mut r: Vec<u8> = Vec::new();
    push_all(&mut r, label);
    r.push(LABEL_JOINER);
    push_all(&mut r, ctx);
    r
}

/// The directory that a handle owns: `base/label-ctx` for a handle of its own
/// context, `base` itself for a shared one.
pub fn target_dir(base: &[u8], label: &[u8], ctx: &[u8], isolation: Isolation) -> (r: Vec<u8>)
    ensures
        r@ == target_of(base@, label@, ctx@, isolation),
{
    match isolation {
        Isolation::PerCaller => {
            let name = unique_dir_name(label, ctx);
            join_path(base, name.as_slice())
        },
        Isolation::Shared => {
            let mut r: Vec<u8> = Vec::new();
            push_all(&mut r, base);
            r
        },
    }
}

/// What the filesystem holds at a path, as far as the scratch directory's
/// decisions go. A symbolic link is reported as itself, not as its target.
#[derive(Clone, Copy, Debug, PartialEq, Eq, Structural)]
pub enum EntryKind {
    Missing,
    File,
    Symlink,
    Directory,
    /// Anything else: a socket, a named pipe, a device.
    Other,
}

/// What construction does with the entry found at the target path.
#[derive(Clone, Copy, Debug, PartialEq, Eq, Structural)]
pub enum PrepareStep {
    /// A directory is there already: use it, contents and all.
    UseExisting,
    /// Create the directory and every missing ancestor.
    Create,
    /// Delete the file or link that is in the way, then create the directory.
    ReplaceWithDirectory,
}

/// How one entry is removed.
#[derive(Clone, Copy, Debug, PartialEq, Eq, Structural)]
pub enum Removal {
    /// Remove the entry itself (a file, a link, a special file).
    RemoveEntry,
    /// Remove a directory and everything under it.
    RemoveTree,
}

/// What construction does when the target path holds `kind`.
pub open spec fn prepare_spec(kind: EntryKind) -> PrepareStep {
    match kind {
        EntryKind::Directory => PrepareStep::UseExisting,
        EntryKind::File | EntryKind::Symlink => PrepareStep::ReplaceWithDirectory,
        EntryKind::Missing | EntryKind::Other => PrepareStep::Create,
    }
}

/// How an entry of kind `kind` is removed; nothing for a missing one.
pub open spec fn removal_spec(kind: EntryKind) -> Option<Removal> {
    match kind {
        EntryKind::Missing => None,
        EntryKind::Directory => Some(Removal::RemoveTree),
        EntryKind::File | EntryKind::Symlink | EntryKind::Other => Some(Removal::RemoveEntry),
    }
}

/// Decides what construction does with the entry at the target path: a file
/// or a link is replaced by a directory, a missing entry is created, an
/// existing directory is kept. Anything else is handed to directory creation,
/// which then reports the collision as an I/O error.
pub fn prepare_step(kind: EntryKind) -> (r: PrepareStep)
    ensures
        r == prepare_spec(kind),
{
    match kind {
        EntryKind::Directory => PrepareStep::UseExisting,
        EntryKind::File | EntryKind::Symlink => PrepareStep::ReplaceWithDirectory,
        EntryKind::Missing | EntryKind::Other => PrepareStep::Create,
    }
}

/// Decides how to remove an entry of kind `kind` when a directory is
/// emptied: a directory goes with all it holds, any other entry by itself,
/// and a missing entry needs nothing.
pub fn removal_for(kind: EntryKind) -> (r: Option<Removal>)
    ensures
        r == removal_spec(kind),
{
    match kind {
        EntryKind::Missing => None,
        EntryKind::Directory => Some(Removal::RemoveTree),
        EntryKind::File | EntryKind::Symlink | EntryKind::Other => Some(Removal::RemoveEntry),
    }
}

/// What deleting the single file at a path does.
#[derive(Clone, Copy, Debug, PartialEq, Eq, Structural)]
pub enum FileDeletion {
    /// Nothing is there: succeed without doing anything.
    AlreadyAbsent,
    /// Remove the file, link or special file that is there.
    RemoveEntry,
    /// A directory is there: leave it and fail, since a file was asked for.
    IsDirectory,
}

/// What deleting the single file at a path holding `kind` does.
pub open spec fn deletion_spec(kind: EntryKind) -> FileDeletion {
    match kind {
        EntryKind::Missing => FileDeletion::AlreadyAbsent,
        EntryKind::Directory => FileDeletion::IsDirectory,
        EntryKind::File | EntryKind::Symlink | EntryKind::Other => FileDeletion::RemoveEntry,
    }
}

/// Decides what deleting the file at a path holding `kind` does: a missing
/// entry needs nothing, so that deleting what is absent succeeds; a directory
/// is never removed this way.
pub fn deletion_for(kind: EntryKind) -> (r: FileDeletion)
    ensures
        r == deletion_spec(kind),
{
    match kind {
        EntryKind::Missing => FileDeletion::AlreadyAbsent,
        EntryKind::Directory => FileDeletion::IsDirectory,
        EntryKind::File | EntryKind::Symlink | EntryKind::Other => FileDeletion::RemoveEntry,
    }
}

/// The state of a scratch directory handle: the directory it owns, whether
/// releasing it deletes that directory, and whether it has been released.
pub struct ScratchDir {
    root: Vec<u8>,
    cleanup_on_release: bool,
    released: bool,
}

/// The mathematical state of a [`ScratchDir`].
pub struct ScratchDirView {
    pub root: Seq<u8>,
    pub cleanup_on_release: bool,
    pub released: bool,
}

impl View for ScratchDir {
    type V = ScratchDirView;

    closed spec fn view(&self) -> ScratchDirView {
        ScratchDirView {
            root: self.root@,
            cleanup_on_release: self.cleanup_on_release,
            released: self.released,
        }
    }
}

impl ScratchDir {
    /// Well-formed: one component of the directory owned names an entry, so it
    /// is never empty, a filesystem root, or made of `.` and `..` alone.
    pub open spec fn wf(&self) -> bool {
        is_valid_base(self@.root)
    }

    /// A handle on the directory for `label` in the execution context `ctx`
    /// under `base`, with `isolation`. It deletes its directory on release.
    /// A base path that no component names (empty, a root such as `/` or
    /// `/.`, or `.` and `..` alone) is a programming error
    /// and must be turned away (see [`is_valid_base_path`]) before anything
    /// touches the filesystem. So must, for a handle of its own context, a
    /// context identifier holding a separator (see [`is_plain_context_id`]):
    /// the directories of two contexts could then nest.
    pub fn open(base: &[u8], label: &[u8], ctx: &[u8], isolation: Isolation) -> (r: ScratchDir)
        requires
            is_valid_base(base@),
            isolation == Isolation::PerCaller ==> has_no_separator(ctx@),
        ensures
            r.wf(),
            r@ == (ScratchDirView {
                root: target_of(base@, label@, ctx@, isolation),
                cleanup_on_release: true,
                released: false,
            }),
    {
        let root = target_dir(base, label, ctx, isolation);
        proof {
            lemma_target_is_valid(base@, label@, ctx@, isolation);
        }
        ScratchDir { root, cleanup_on_release: true, released: false }
    }

    /// The directory that this handle owns.
    pub fn root(&self) -> (r: &[u8])
        ensures
            r@ == self@.root,
    {
        self.root.as_slice()
    }

    /// Whether releasing this handle deletes its directory.
    pub fn cleanup_on_release(&self) -> (r: bool)
        ensures
            r == self@.cleanup_on_release,
    {
        self.cleanup_on_release
    }

    /// Sets whether releasing this handle deletes its directory.
    pub fn set_cleanup_on_release(&mut self, cleanup: bool)
        ensures
            final(self)@ == (ScratchDirView { cleanup_on_release: cleanup, ..old(self)@ }),
    {
        self.cleanup_on_release = cleanup;
    }

    /// Whether this handle has been released.
    pub fn is_released(&self) -> (r: bool)
        ensures
            r == self@.released,
    {
        self.released
    }

    /// The path of the file `name` inside this handle's directory.
    pub fn file_path(&self, name: &[u8]) -> (r: Vec<u8>)
        ensures
            r@ == joined(self@.root, name@),
    {
        join_path(self.root.as_slice(), name)
    }

    /// Releases the handle. Returns whether the caller must now delete the
    /// directory recursively: only on the first release, and only when the
    /// handle cleans up on release. A later release does nothing.
    pub fn release(&mut self) -> (r: bool)
        ensures
            r == release_removes(old(self)@),
            final(self)@ == released(old(self)@),
    {
        let remove = !self.released && self.cleanup_on_release;
        self.released = true;
        remove
    }
}

/// The directory that a handle owns is valid whenever its base is: under a
/// valid base, `base/label-ctx` keeps the base's non-separator byte.
pub proof fn lemma_target_is_valid(base: Seq<u8>, label: Seq<u8>, ctx: Seq<u8>, isolation: Isolation)
    requires
        is_valid_base(base),
    ensures
        is_valid_base(target_of(base, label, ctx, isolation)),
{
    if isolation == Isolation::PerCaller {
        let (s, e) = choose|s: int, e: int| is_component(base, s, e) && is_named(base, s, e);
        let t = target_of(base, label, ctx, isolation);
        let name = unique_name(label, ctx);
        if base.last() == SEPARATOR {
            assert(t == base + name);
            assert(e < base.len());
        } else {
            assert(t == base.push(SEPARATOR) + name);
        }
        assert(forall|k: int| 0 <= k < base.len() ==> t[k] == base[k]);
        assert(t[e] == SEPARATOR);
        assert(is_component(t, s, e));
        assert(is_named(t, s, e));
    }
}

/// Whether releasing a handle in state `v` deletes its directory.
pub open spec fn release_removes(v: ScratchDirView) -> bool {
    !v.released && v.cleanup_on_release
}

/// The state of a handle after it has been released from state `v`.
pub open spec fn released(v: ScratchDirView) -> ScratchDirView {
    ScratchDirView { released: true, ..v }
}

/// Releasing acts at most once: after a release, a second one deletes
/// nothing and leaves the handle as it was.
pub proof fn lemma_release_at_most_once(v: ScratchDirView)
    ensures
        !release_removes(released(v)),
        released(released(v)) == released(v),
{
}

/// Release with cleanup deletes the directory, release without it keeps the
/// directory and its contents: the first release of a handle deletes exactly
/// when the handle was set to clean up.
pub proof fn lemma_release_follows_cleanup_flag(v: ScratchDirView)
    requires
        !v.released,
    ensures
        release_removes(v) == v.cleanup_on_release,
        released(v).root == v.root,
{
}

/// A filesystem root, and the empty path, can never be the base of a
/// scratch directory, so construction turns them away before any directory
/// is created or deleted.
pub proof fn lemma_root_is_rejected(p: Seq<u8>)
    requires
        is_root(p) || p.len() == 0,
    ensures
        !is_valid_base(p),
{
}

/// Emptying a directory removes every entry it finds: nothing that exists is
/// left alone, and a subdirectory goes with everything under it.
pub proof fn lemma_every_entry_is_removed(kind: EntryKind)
    ensures
        kind != EntryKind::Missing ==> removal_spec(kind) is Some,
        kind == EntryKind::Directory ==> removal_spec(kind) == Some(Removal::RemoveTree),
{
}

/// Deleting a file that does not exist needs no step, so it succeeds, and
/// deleting one file never removes a directory.
pub proof fn lemma_delete_missing_is_noop(kind: EntryKind)
    ensures
        deletion_spec(EntryKind::Missing) == FileDeletion::AlreadyAbsent,
        deletion_spec(kind) == FileDeletion::RemoveEntry ==> kind != EntryKind::Directory,
{
}

/// Placing two names under the same directory gives the same path only for
/// the same name.
pub proof fn lemma_joined_injective(root: Seq<u8>, n1: Seq<u8>, n2: Seq<u8>)
    requires
        joined(root, n1) == joined(root, n2),
    ensures
        n1 == n2,
{
    let p = if root.len() == 0 {
        root
    } else if root.last() == SEPARATOR {
        root
    } else {
        root.push(SEPARATOR)
    };
    assert((p + n1).subrange(p.len() as int, (p + n1).len() as int) == n1);
    assert((p + n2).subrange(p.len() as int, (p + n2).len() as int) == n2);
}

/// Holds when `c` holds no separator, as a thread identifier does.
pub open spec fn has_no_separator(c: Seq<u8>) -> bool {
    forall|k: int| 0 <= k < c.len() ==> c[k] != SEPARATOR
}

/// Two handles of distinct execution contexts never share a directory under
/// per-caller isolation: with the same label, their directories differ.
pub proof fn lemma_distinct_contexts_distinct_dirs(base: Seq<u8>, label: Seq<u8>, c1: Seq<u8>, c2: Seq<u8>)
    requires
        c1 != c2,
    ensures
        target_of(base, label, c1, Isolation::PerCaller) != target_of(base, label, c2, Isolation::PerCaller),
{
    let n1 = unique_name(label, c1);
    let n2 = unique_name(label, c2);
    if target_of(base, label, c1, Isolation::PerCaller) == target_of(base, label, c2, Isolation::PerCaller) {
        lemma_joined_injective(base, n1, n2);
        assert(n1.subrange(label.len() + 1 as int, n1.len() as int) == c1);
        assert(n2.subrange(label.len() + 1 as int, n2.len() as int) == c2);
    }
}

/// The path of `name` inside the directory of context `c`: the directory,
/// one separator, then the name.
proof fn lemma_file_in_target(base: Seq<u8>, label: Seq<u8>, c: Seq<u8>, name: Seq<u8>)
    requires
        has_no_separator(c),
    ensures
        joined(target_of(base, label, c, Isolation::PerCaller), name) == target_of(
            base,
            label,
            c,
            Isolation::PerCaller,
        ).push(SEPARATOR) + name,
{
    let t = target_of(base, label, c, Isolation::PerCaller);
    let u = unique_name(label, c);
    if base.len() == 0 {
        assert(t == u);
    } else if base.last() == SEPARATOR {
        assert(t == base + u);
    } else {
        assert(t == base.push(SEPARATOR) + u);
    }
    assert(t.len() > 0);
    if c.len() > 0 {
        assert(t.last() == c.last());
    } else {
        assert(t.last() == LABEL_JOINER);
    }
}

/// What one handle writes is never visible through another: for two distinct
/// execution contexts whose identifiers hold no separator, and the same
/// label, no path inside one handle's directory is a path inside the other's,
/// nor the other's directory itself.
pub proof fn lemma_files_not_shared(
    base: Seq<u8>,
    label: Seq<u8>,
    c1: Seq<u8>,
    c2: Seq<u8>,
    f1: Seq<u8>,
    f2: Seq<u8>,
)
    requires
        c1 != c2,
        has_no_separator(c1),
        has_no_separator(c2),
    ensures
        joined(target_of(base, label, c1, Isolation::PerCaller), f1) != joined(
            target_of(base, label, c2, Isolation::PerCaller),
            f2,
        ),
        joined(target_of(base, label, c1, Isolation::PerCaller), f1) != target_of(
            base,
            label,
            c2,
            Isolation::PerCaller,
        ),
        joined(target_of(base, label, c2, Isolation::PerCaller), f2) != target_of(
            base,
            label,
            c1,
            Isolation::PerCaller,
        ),
{
    lemma_file_in_target(base, label, c1, f1);
    lemma_file_in_target(base, label, c2, f2);
    lemma_path_not_under(base, label, c1, c2, f1, f2);
    lemma_path_not_under(base, label, c2, c1, f2, f1);
}

/// One half of [`lemma_files_not_shared`]: the path `f1` inside the directory
/// of `c1` is neither the path `f2` inside that of `c2` nor that directory.
proof fn lemma_path_not_under(
    base: Seq<u8>,
    label: Seq<u8>,
    c1: Seq<u8>,
    c2: Seq<u8>,
    f1: Seq<u8>,
    f2: Seq<u8>,
)
    requires
        c1 != c2,
        has_no_separator(c1),
        has_no_separator(c2),
    ensures
        target_of(base, label, c1, Isolation::PerCaller).push(SEPARATOR) + f1 != target_of(
            base,
            label,
            c2,
            Isolation::PerCaller,
        ).push(SEPARATOR) + f2,
        target_of(base, label, c1, Isolation::PerCaller).push(SEPARATOR) + f1 != target_of(
            base,
            label,
            c2,
            Isolation::PerCaller,
        ),
{
    let pre = joined(base, label.push(LABEL_JOINER));
    let t1 = target_of(base, label, c1, Isolation::PerCaller);
    let t2 = target_of(base, label, c2, Isolation::PerCaller);
    if base.len() == 0 {
        assert(t1 == pre + c1);
        assert(t2 == pre + c2);
    } else if base.last() == SEPARATOR {
        assert(t1 == pre + c1);
        assert(t2 == pre + c2);
    } else {
        assert(t1 == pre + c1);
        assert(t2 == pre + c2);
    }
    let m = pre.len() as int;
    let p1 = t1.push(SEPARATOR) + f1;
    let p2 = t2.push(SEPARATOR) + f2;
    if c1.len() < c2.len() {
        assert(p1[m + c1.len()] == SEPARATOR);
        assert(p2[m + c1.len()] == c2[c1.len() as int]);
        assert(t2[m + c1.len()] == c2[c1.len() as int]);
    } else if c1.len() == c2.len() {
        if p1 == p2 {
            assert(c1 == p1.subrange(m, m + c1.len()));
            assert(c2 == p2.subrange(m, m + c2.len()));
        }
        assert(p1.len() > t2.len());
    } else {
        assert(p2[m + c2.len()] == SEPARATOR);
        assert(p1[m + c2.len()] == c1[c2.len() as int]);
        assert(p1.len() > t2.len());
    }
}

} // verus!
