//! The path sandbox: directories are named by the components that lead to
//! them from the filesystem root, and a client may move only within the
//! subtree below a configured root directory.
//!
//! Paths are resolved on their text alone. A `..` removes the last component;
//! where that would leave the sandbox the path is refused, whatever exists on
//! disk.

use vstd::prelude::*;
use vstd::string::StringSliceAdditionalSpecFns;

verus! {

/// The byte that separates the components of a path.
pub const SLASH: u8 = 47;

/// The byte of which the components `.` and `..` are made.
pub const DOT: u8 = 46;

/// The component that stands for the directory itself.
pub open spec fn dot() -> Seq<u8> {
    seq![DOT]
}

/// The component that stands for the parent directory.
pub open spec fn dot_dot() -> Seq<u8> {
    seq![DOT, DOT]
}

/// Whether a component names an entry of a directory.
pub open spec fn is_name(segment: Seq<u8>) -> bool {
    segment.len() > 0 && segment != dot() && segment != dot_dot() && !segment.contains(SLASH)
}

/// Whether every component names an entry of a directory.
pub open spec fn all_names(parts: Seq<Seq<u8>>) -> bool {
    forall|i: int| 0 <= i < parts.len() ==> is_name(#[trigger] parts[i])
}

/// The segments of `bytes` from position `from` on, where `current` holds the
/// bytes of the segment that is being read.
pub open spec fn scan(bytes: Seq<u8>, from: int, current: Seq<u8>) -> Seq<Seq<u8>>
    decreases bytes.len() - from,
{
    if from >= bytes.len() {
        seq![current]
    } else if bytes[from] == SLASH {
        seq![current] + scan(bytes, from + 1, Seq::empty())
    } else {
        scan(bytes, from + 1, current.push(bytes[from]))
    }
}

/// The pieces of a path text between its slashes, empty pieces included.
pub open spec fn segments(bytes: Seq<u8>) -> Seq<Seq<u8>> {
    scan(bytes, 0, Seq::empty())
}

/// Whether a path text starts at the filesystem root.
pub open spec fn is_absolute(bytes: Seq<u8>) -> bool {
    bytes.len() > 0 && bytes[0] == SLASH
}

/// Where one segment leads from the directory `at`: an empty segment and `.`
/// stay, a name descends, `..` goes to the parent. `None` where `..` would
/// leave the sandbox at `root`. Above the sandbox, `..` at the filesystem
/// root stays there.
pub open spec fn step(root: Seq<Seq<u8>>, at: Seq<Seq<u8>>, segment: Seq<u8>) -> Option<
    Seq<Seq<u8>>,
> {
    if segment.len() == 0 || segment == dot() {
        Some(at)
    } else if segment == dot_dot() {
        if at == root {
            None
        } else if at.len() == 0 {
            Some(at)
        } else {
            Some(at.drop_last())
        }
    } else {
        Some(at.push(segment))
    }
}

/// Where a sequence of segments leads from the directory `at`.
pub open spec fn walk(root: Seq<Seq<u8>>, at: Seq<Seq<u8>>, segs: Seq<Seq<u8>>) -> Option<
    Seq<Seq<u8>>,
>
    decreases segs.len(),
{
    if segs.len() == 0 {
        Some(at)
    } else {
        match step(root, at, segs[0]) {
            None => None,
            Some(next) => walk(root, next, segs.skip(1)),
        }
    }
}

/// The directory that the path text `rel` names when it is followed from
/// `base`: a text that begins with a slash starts at the filesystem root
/// instead. `None` where the walk leaves the sandbox at `root`, or ends
/// outside it.
pub open spec fn resolved(root: Seq<Seq<u8>>, base: Seq<Seq<u8>>, rel: Seq<u8>) -> Option<
    Seq<Seq<u8>>,
> {
    let start = if is_absolute(rel) {
        Seq::empty()
    } else {
        base
    };
    match walk(root, start, segments(rel)) {
        None => None,
        Some(dir) => if root.is_prefix_of(dir) {
            Some(dir)
        } else {
            None
        },
    }
}

/// Why a move was refused.
#[derive(Clone, Copy, Debug, PartialEq, Eq, Structural)]
pub enum SandboxError {
    /// The directory is the filesystem root, which has no parent.
    NoParent,
    /// The parent lies above the sandbox root.
    AboveRoot,
    /// The path leaves the sandbox, or names a place outside it.
    OutsideRoot,
}

/// The parent of `base`, as far as the sandbox at `root` admits it.
pub open spec fn parent_within(root: Seq<Seq<u8>>, base: Seq<Seq<u8>>) -> Result<
    Seq<Seq<u8>>,
    SandboxError,
> {
    if base.len() == 0 {
        Err(SandboxError::NoParent)
    } else if !root.is_prefix_of(base.drop_last()) {
        Err(SandboxError::AboveRoot)
    } else {
        Ok(base.drop_last())
    }
}

/// The text of a path: every component with a slash in front of it, and a
/// single slash for the filesystem root.
pub open spec fn render(parts: Seq<Seq<u8>>) -> Seq<u8> {
    if parts.len() == 0 {
        seq![SLASH]
    } else {
        render_parts(parts)
    }
}

/// Every component with a slash in front of it.
pub open spec fn render_parts(parts: Seq<Seq<u8>>) -> Seq<u8>
    decreases parts.len(),
{
    if parts.len() == 0 {
        Seq::empty()
    } else {
        render_parts(parts.drop_last()) + seq![SLASH] + parts.last()
    }
}

/// The text that names `rel` as seen from the directory with text `dir`:
/// `rel` itself where it starts at the filesystem root or `dir` is empty,
/// else `dir`, a slash unless `dir` ends in one, and `rel`. Nothing is
/// resolved or checked.
pub open spec fn joined(dir: Seq<u8>, rel: Seq<u8>) -> Seq<u8> {
    if is_absolute(rel) || dir.len() == 0 {
        rel
    } else if dir.last() == SLASH {
        dir + rel
    } else {
        dir + seq![SLASH] + rel
    }
}

/// The components of a vector of byte strings.
pub open spec fn deep(parts: Seq<Vec<u8>>) -> Seq<Seq<u8>> {
    Seq::new(parts.len(), |i: int| parts[i]@)
}

/// An absolute directory path, held as its components from the filesystem
/// root down. Every component is a name: none is empty, `.` or `..`, and
/// none holds a slash.
#[derive(Debug, PartialEq, Eq)]
pub struct DirPath {
    parts: Vec<Vec<u8>>,
}

impl View for DirPath {
    type V = Seq<Seq<u8>>;

    closed spec fn view(&self) -> Seq<Seq<u8>> {
        deep(self.parts@)
    }
}

/// Whether two byte strings are the same.
fn same_bytes(a: &Vec<u8>, b: &Vec<u8>) -> (same: bool)
    ensures
        same == (a@ == b@),
{
    if a.len() != b.len() {
        return false;
    }
    let mut i: usize = 0;
    while i < a.len()
        invariant
            i <= a.len(),
            a.len() == b.len(),
            forall|k: int| 0 <= k < i ==> a@[k] == b@[k],
        decreases a.len() - i,
    {
        if a[i] != b[i] {
            return false;
        }
        i += 1;
    }
    assert(a@ =~= b@);
    true
}

/// Whether the components of `prefix` are the first components of `whole`.
fn starts_with(whole: &Vec<Vec<u8>>, prefix: &Vec<Vec<u8>>) -> (yes: bool)
    ensures
        yes == deep(prefix@).is_prefix_of(deep(whole@)),
{
    if prefix.len() > whole.len() {
        return false;
    }
    let mut i: usize = 0;
    while i < prefix.len()
        invariant
            i <= prefix.len() <= whole.len(),
            forall|k: int| 0 <= k < i ==> prefix@[k]@ == whole@[k]@,
        decreases prefix.len() - i,
    {
        if !same_bytes(&prefix[i], &whole[i]) {
            assert(deep(prefix@)[i as int] != deep(whole@).subrange(0, prefix.len() as int)[i as int]);
            return false;
        }
        i += 1;
    }
    assert(deep(prefix@) =~= deep(whole@).subrange(0, prefix.len() as int));
    true
}

/// A copy of a vector of byte strings.
fn copy_parts(parts: &Vec<Vec<u8>>) -> (out: Vec<Vec<u8>>)
    ensures
        deep(out@) == deep(parts@),
{
    let mut out: Vec<Vec<u8>> = Vec::new();
    let mut i: usize = 0;
    while i < parts.len()
        invariant
            i <= parts.len(),
            out.len() == i,
            forall|k: int| 0 <= k < i ==> out@[k]@ == parts@[k]@,
        decreases parts.len() - i,
    {
        let part = parts[i].clone();
        out.push(part);
        i += 1;
    }
    assert(deep(out@) =~= deep(parts@));
    out
}

/// Follows one segment from the directory held in `at`. Gives `false`, and
/// leaves `at` as it was, where the segment would leave the sandbox.
fn apply_segment(root: &Vec<Vec<u8>>, at: &mut Vec<Vec<u8>>, segment: Vec<u8>) -> (ok: bool)
    requires
        all_names(deep(old(at)@)),
        !segment@.contains(SLASH),
    ensures
        all_names(deep(final(at)@)),
        match step(deep(root@), deep(old(at)@), segment@) {
            Some(next) => ok && deep(final(at)@) == next,
            None => !ok && deep(final(at)@) == deep(old(at)@),
        },
{
    let n: usize = segment.len();
    if n == 0 || (n == 1 && segment[0] == DOT) {
        assert(n == 1 && segment@[0] == DOT ==> segment@ =~= dot());
        return true;
    }
    assert(segment@ != dot()) by {
        if segment@ == dot() {
            assert(dot().len() == 1 && dot()[0] == DOT);
        }
    }
    if n == 2 && segment[0] == DOT && segment[1] == DOT {
        assert(segment@ =~= dot_dot());
        if at.len() == root.len() && starts_with(at, root) {
            assert(deep(at@) =~= deep(root@));
            return false;
        }
        assert(deep(at@) != deep(root@)) by {
            if deep(at@) == deep(root@) {
                assert(deep(root@) =~= deep(at@).subrange(0, deep(root@).len() as int));
            }
        }
        if at.len() > 0 {
            at.pop();
            assert(deep(at@) =~= deep(old(at)@).drop_last());
            assert forall|i: int| 0 <= i < deep(at@).len() implies is_name(
                #[trigger] deep(at@)[i],
            ) by {
                assert(deep(at@)[i] == deep(old(at)@)[i]);
            }
        }
        return true;
    }
    assert(segment@ != dot_dot()) by {
        if segment@ == dot_dot() {
            assert(dot_dot().len() == 2 && dot_dot()[0] == DOT && dot_dot()[1] == DOT);
        }
    }
    at.push(segment);
    assert(deep(at@) =~= deep(old(at)@).push(segment@));
    assert forall|i: int| 0 <= i < deep(at@).len() implies is_name(#[trigger] deep(at@)[i]) by {
        if i < deep(old(at)@).len() {
            assert(deep(at@)[i] == deep(old(at)@)[i]);
        }
    }
    true
}

impl Clone for DirPath {
    fn clone(&self) -> (dir: DirPath)
        ensures
            dir@ == self@,
    {
        self.duplicate()
    }
}

impl DirPath {
    #[verifier::type_invariant]
    spec fn names_only(self) -> bool {
        all_names(deep(self.parts@))
    }

    /// The filesystem root.
    pub fn filesystem_root() -> (dir: DirPath)
        ensures
            dir@ == Seq::<Seq<u8>>::empty(),
    {
        let dir = DirPath { parts: Vec::new() };
        assert(dir@ =~= Seq::<Seq<u8>>::empty());
        dir
    }

    /// The directory that an absolute path text names. `None` where the text
    /// does not begin with a slash, or goes above the filesystem root.
    pub fn from_absolute(text: &str) -> (res: Option<DirPath>)
        ensures
            match res {
                Some(dir) => is_absolute(text.spec_bytes()) && resolved(
                    Seq::empty(),
                    Seq::empty(),
                    text.spec_bytes(),
                ) == Some(dir@),
                None => !is_absolute(text.spec_bytes()) || resolved(
                    Seq::empty(),
                    Seq::empty(),
                    text.spec_bytes(),
                ) is None,
            },
    {
        let bytes = text.as_bytes();
        if bytes.len() == 0 || bytes[0] != SLASH {
            return None;
        }
        let top = DirPath::filesystem_root();
        match DirPath::resolve_down(&top, &top, text) {
            Ok(dir) => Some(dir),
            Err(_) => None,
        }
    }

    /// A copy of this path.
    pub fn duplicate(&self) -> (dir: DirPath)
        ensures
            dir@ == self@,
    {
        proof {
            use_type_invariant(self);
        }
        DirPath { parts: copy_parts(&self.parts) }
    }

    /// Number of components below the filesystem root.
    pub fn depth(&self) -> (n: usize)
        ensures
            n == self@.len(),
    {
        self.parts.len()
    }

    /// Whether this directory is `root` or lies below it.
    pub fn is_within(&self, root: &DirPath) -> (yes: bool)
        ensures
            yes == root@.is_prefix_of(self@),
    {
        starts_with(&self.parts, &root.parts)
    }

    /// Whether the two paths name the same directory.
    pub fn same_as(&self, other: &DirPath) -> (yes: bool)
        ensures
            yes == (self@ == other@),
    {
        let yes = self.parts.len() == other.parts.len() && starts_with(&self.parts, &other.parts);
        proof {
            if self@ == other@ {
                assert(other@ =~= self@.subrange(0, other@.len() as int));
            }
            if yes {
                assert(self@ =~= other@);
            }
        }
        yes
    }

    /// The text of this path. Its components are names.
    pub fn to_bytes(&self) -> (text: Vec<u8>)
        ensures
            text@ == render(self@),
            all_names(self@),
    {
        proof {
            use_type_invariant(self);
        }
        let mut text: Vec<u8> = Vec::new();
        if self.parts.len() == 0 {
            text.push(SLASH);
            assert(text@ =~= render(self@));
            return text;
        }
        let mut i: usize = 0;
        assert(self@.take(0) =~= Seq::<Seq<u8>>::empty());
        while i < self.parts.len()
            invariant
                i <= self.parts.len(),
                text@ == render_parts(self@.take(i as int)),
            decreases self.parts.len() - i,
        {
            let ghost before = text@;
            text.push(SLASH);
            let mut part = self.parts[i].clone();
            text.append(&mut part);
            proof {
                let next = self@.take(i + 1);
                assert(next.drop_last() =~= self@.take(i as int));
                assert(next.last() == self.parts@[i as int]@);
                assert(text@ =~= before + seq![SLASH] + next.last());
            }
            i += 1;
        }
        assert(self@.take(i as int) =~= self@);
        text
    }

    /// Resolves the path text `rel` against the directory `base` inside the
    /// sandbox at `root`. Succeeds exactly where following `rel` never
    /// leaves the sandbox and ends inside it; what exists on disk plays no
    /// part.
    pub fn resolve_down(root: &DirPath, base: &DirPath, rel: &str) -> (res: Result<
        DirPath,
        SandboxError,
    >)
        ensures
            match resolved(root@, base@, rel.spec_bytes()) {
                Some(dir) => res matches Ok(d) && d@ == dir,
                None => res matches Err(e) && e == SandboxError::OutsideRoot,
            },
    {
        proof {
            use_type_invariant(base);
        }
        let text = rel.as_bytes();
        let mut at: Vec<Vec<u8>> = if text.len() > 0 && text[0] == SLASH {
            Vec::new()
        } else {
            copy_parts(&base.parts)
        };
        let ghost start = deep(at@);
        assert(start == if is_absolute(text@) {
            Seq::<Seq<u8>>::empty()
        } else {
            base@
        }) by {
            assert(deep(Seq::<Vec<u8>>::empty()) =~= Seq::<Seq<u8>>::empty());
        }
        let mut current: Vec<u8> = Vec::new();
        let mut i: usize = 0;
        while i < text.len()
            invariant
                i <= text.len(),
                text@ == rel.spec_bytes(),
                start == if is_absolute(text@) {
                    Seq::<Seq<u8>>::empty()
                } else {
                    base@
                },
                walk(root@, start, segments(text@)) == walk(
                    root@,
                    deep(at@),
                    scan(text@, i as int, current@),
                ),
                all_names(deep(at@)),
                !current@.contains(SLASH),
            decreases text.len() - i,
        {
            let byte: u8 = text[i];
            if byte == SLASH {
                let ghost rest = scan(text@, i + 1, Seq::empty());
                let ghost segs = scan(text@, i as int, current@);
                assert(segs =~= seq![current@] + rest);
                assert(segs[0] == current@);
                assert(segs.skip(1) =~= rest);
                let mut segment: Vec<u8> = Vec::new();
                segment.append(&mut current);
                assert(segment@ =~= segs[0]);
                if !apply_segment(&root.parts, &mut at, segment) {
                    return Err(SandboxError::OutsideRoot);
                }
            } else {
                let ghost before = current@;
                current.push(byte);
                assert(!current@.contains(SLASH)) by {
                    if current@.contains(SLASH) {
                        let k = choose|k: int| 0 <= k < current@.len() && current@[k] == SLASH;
                        if k < before.len() {
                            assert(before[k] == SLASH);
                        }
                    }
                }
            }
            i += 1;
        }
        let ghost last = scan(text@, i as int, current@);
        assert(last =~= seq![current@]);
        assert(last.skip(1) =~= Seq::<Seq<u8>>::empty());
        assert(last[0] == current@);
        if !apply_segment(&root.parts, &mut at, current) {
            return Err(SandboxError::OutsideRoot);
        }
        assert(walk(root@, deep(at@), last.skip(1)) == Some(deep(at@)));
        if starts_with(&at, &root.parts) {
            Ok(DirPath { parts: at })
        } else {
            Err(SandboxError::OutsideRoot)
        }
    }

    /// The parent of `base`, unless there is none or it lies above the
    /// sandbox at `root`.
    pub fn resolve_up(root: &DirPath, base: &DirPath) -> (res: Result<DirPath, SandboxError>)
        ensures
            match parent_within(root@, base@) {
                Ok(dir) => res matches Ok(d) && d@ == dir,
                Err(e) => res matches Err(f) && f == e,
            },
    {
        if base.parts.len() == 0 {
            return Err(SandboxError::NoParent);
        }
        proof {
            use_type_invariant(base);
        }
        let mut parent = copy_parts(&base.parts);
        parent.pop();
        assert(deep(parent@) =~= base@.drop_last());
        assert forall|i: int| 0 <= i < deep(parent@).len() implies is_name(
            #[trigger] deep(parent@)[i],
        ) by {
            assert(deep(parent@)[i] == base@[i]);
        }
        if starts_with(&parent, &root.parts) {
            Ok(DirPath { parts: parent })
        } else {
            Err(SandboxError::AboveRoot)
        }
    }

    /// The text that names `rel` as seen from this directory. Nothing is
    /// resolved or checked: the result may lie outside any sandbox.
    pub fn join_raw(&self, rel: &str) -> (text: Vec<u8>)
        ensures
            text@ == joined(render(self@), rel.spec_bytes()),
    {
        let dir = self.to_bytes();
        join_text(dir.as_slice(), rel.as_bytes())
    }
}

/// The text that names `rel` as seen from the directory with text `dir`.
/// Nothing is resolved or checked.
pub fn join_text(dir: &[u8], rel: &[u8]) -> (text: Vec<u8>)
    ensures
        text@ == joined(dir@, rel@),
{
    let mut text: Vec<u8> = if rel.len() > 0 && rel[0] == SLASH {
        Vec::new()
    } else {
        let mut head = vstd::slice::slice_to_vec(dir);
        if head.len() > 0 && head[head.len() - 1] != SLASH {
            head.push(SLASH);
        }
        head
    };
    let ghost head = text@;
    let mut tail = vstd::slice::slice_to_vec(rel);
    text.append(&mut tail);
    assert(text@ =~= head + rel@);
    text
}

/// The last segment that names something: empty segments and `.` at the end
/// are passed over; `None` where there is no such segment or it is `..`.
pub open spec fn final_name(segs: Seq<Seq<u8>>) -> Option<Seq<u8>>
    decreases segs.len(),
{
    if segs.len() == 0 {
        None
    } else if segs.last().len() == 0 || segs.last() == dot() {
        final_name(segs.drop_last())
    } else if segs.last() == dot_dot() {
        None
    } else {
        Some(segs.last())
    }
}

/// The pieces of a path text between its slashes, empty pieces included.
pub fn split_segments(text: &[u8]) -> (out: Vec<Vec<u8>>)
    ensures
        deep(out@) == segments(text@),
{
    let mut out: Vec<Vec<u8>> = Vec::new();
    let mut current: Vec<u8> = Vec::new();
    let mut i: usize = 0;
    assert(deep(out@) + scan(text@, 0, current@) =~= segments(text@));
    while i < text.len()
        invariant
            i <= text.len(),
            segments(text@) == deep(out@) + scan(text@, i as int, current@),
        decreases text.len() - i,
    {
        let byte: u8 = text[i];
        if byte == SLASH {
            let ghost done = deep(out@);
            let ghost rest = scan(text@, i + 1, Seq::empty());
            let mut segment: Vec<u8> = Vec::new();
            segment.append(&mut current);
            out.push(segment);
            assert(deep(out@) =~= done.push(segment@));
            assert(done + (seq![segment@] + rest) =~= deep(out@) + rest);
        } else {
            current.push(byte);
        }
        i += 1;
    }
    let ghost done = deep(out@);
    out.push(current);
    assert(deep(out@) =~= done + seq![current@]);
    out
}

/// The name of the file or directory that a path text ends in, if it ends in
/// one.
pub fn file_name(text: &[u8]) -> (name: Option<Vec<u8>>)
    ensures
        match final_name(segments(text@)) {
            Some(n) => name matches Some(v) && v@ == n,
            None => name is None,
        },
{
    let mut segs = split_segments(text);
    let ghost all = deep(segs@);
    while segs.len() > 0
        invariant
            all == segments(text@),
            final_name(all) == final_name(deep(segs@)),
        decreases segs.len(),
    {
        let ghost before = deep(segs@);
        let last = segs.pop().unwrap();
        assert(last@ == before.last());
        assert(deep(segs@) =~= before.drop_last());
        let n: usize = last.len();
        if n == 0 || (n == 1 && last[0] == DOT) {
            assert(n == 1 && last@[0] == DOT ==> last@ =~= dot());
        } else {
            assert(last@ != dot()) by {
                if last@ == dot() {
                    assert(dot().len() == 1 && dot()[0] == DOT);
                }
            }
            if n == 2 && last[0] == DOT && last[1] == DOT {
                assert(last@ =~= dot_dot());
                return None;
            }
            assert(last@ != dot_dot()) by {
                if last@ == dot_dot() {
                    assert(dot_dot().len() == 2 && dot_dot()[0] == DOT && dot_dot()[1] == DOT);
                }
            }
            return Some(last);
        }
    }
    None
}

/// Whether following `segs` from a directory `depth` levels below the sandbox
/// root comes to a `..` at the root itself.
pub open spec fn dips_below(segs: Seq<Seq<u8>>, depth: int) -> bool
    decreases segs.len(),
{
    if segs.len() == 0 {
        false
    } else if segs[0].len() == 0 || segs[0] == dot() {
        dips_below(segs.skip(1), depth)
    } else if segs[0] == dot_dot() {
        depth == 0 || dips_below(segs.skip(1), depth - 1)
    } else {
        dips_below(segs.skip(1), depth + 1)
    }
}

/// A directory below the root of the sandbox still lies within the sandbox
/// after its last component is removed.
proof fn lemma_parent_stays_within(root: Seq<Seq<u8>>, at: Seq<Seq<u8>>)
    requires
        root.is_prefix_of(at),
        at != root,
    ensures
        at.len() > root.len(),
        root.is_prefix_of(at.drop_last()),
{
    if at.len() == root.len() {
        assert(at =~= at.subrange(0, root.len() as int));
    }
    assert(root =~= at.drop_last().subrange(0, root.len() as int));
}

/// A directory within the sandbox has the root as a prefix of each of its
/// subdirectories too.
proof fn lemma_child_stays_within(root: Seq<Seq<u8>>, at: Seq<Seq<u8>>, name: Seq<u8>)
    requires
        root.is_prefix_of(at),
    ensures
        root.is_prefix_of(at.push(name)),
{
    assert(root =~= at.push(name).subrange(0, root.len() as int));
}

/// From inside the sandbox, a path is refused for leaving it exactly where it
/// comes to a `..` at the sandbox root, whatever exists on disk; every other
/// path leads to a directory inside the sandbox.
pub proof fn lemma_walk_refuses_escapes(root: Seq<Seq<u8>>, at: Seq<Seq<u8>>, segs: Seq<Seq<u8>>)
    requires
        root.is_prefix_of(at),
    ensures
        walk(root, at, segs) is None <==> dips_below(segs, at.len() - root.len()),
        walk(root, at, segs) matches Some(dir) ==> root.is_prefix_of(dir),
    decreases segs.len(),
{
    if segs.len() > 0 {
        let first = segs[0];
        if first.len() == 0 || first == dot() {
            lemma_walk_refuses_escapes(root, at, segs.skip(1));
        } else if first == dot_dot() {
            if at != root {
                lemma_parent_stays_within(root, at);
                lemma_walk_refuses_escapes(root, at.drop_last(), segs.skip(1));
            } else {
                assert(at.len() == root.len());
            }
        } else {
            lemma_child_stays_within(root, at, first);
            lemma_walk_refuses_escapes(root, at.push(first), segs.skip(1));
        }
    }
}

/// A path made of names only leads down to the directory that they spell.
pub proof fn lemma_walk_descends(root: Seq<Seq<u8>>, at: Seq<Seq<u8>>, names: Seq<Seq<u8>>)
    requires
        forall|i: int| 0 <= i < names.len() ==> is_name(#[trigger] names[i]),
    ensures
        walk(root, at, names) == Some(at + names),
    decreases names.len(),
{
    if names.len() == 0 {
        assert(at + names =~= at);
    } else {
        let first = names[0];
        assert(is_name(first));
        let rest = names.skip(1);
        assert forall|i: int| 0 <= i < rest.len() implies is_name(#[trigger] rest[i]) by {
            assert(rest[i] == names[i + 1]);
        }
        lemma_walk_descends(root, at.push(first), rest);
        assert(at.push(first) + rest =~= at + names);
    }
}

/// A text without a slash is a single segment.
pub proof fn lemma_segments_without_slash(text: Seq<u8>)
    requires
        !text.contains(SLASH),
    ensures
        segments(text) == seq![text],
{
    lemma_scan_to_the_end(text, 0, Seq::empty());
    assert(Seq::<u8>::empty() + text.skip(0) =~= text);
}

/// Scanning a text that has no slash from `from` on collects what is left
/// of it.
proof fn lemma_scan_to_the_end(text: Seq<u8>, from: int, current: Seq<u8>)
    requires
        0 <= from <= text.len(),
        forall|k: int| from <= k < text.len() ==> text[k] != SLASH,
    ensures
        scan(text, from, current) == seq![current + text.skip(from)],
    decreases text.len() - from,
{
    if from >= text.len() {
        assert(current + text.skip(from) =~= current);
    } else {
        lemma_scan_to_the_end(text, from + 1, current.push(text[from]));
        assert(current.push(text[from]) + text.skip(from + 1) =~= current + text.skip(from));
    }
}

/// A slash and a name behind a text add the name to the segments of the
/// text.
proof fn lemma_scan_appended_name(text: Seq<u8>, name: Seq<u8>, from: int, current: Seq<u8>)
    requires
        0 <= from <= text.len(),
        !name.contains(SLASH),
    ensures
        scan(text + seq![SLASH] + name, from, current) == scan(text, from, current) + seq![name],
    decreases text.len() - from,
{
    let whole = text + seq![SLASH] + name;
    if from == text.len() {
        assert(whole[from] == SLASH);
        assert forall|k: int| from + 1 <= k < whole.len() implies whole[k] != SLASH by {
            assert(whole[k] == name[k - from - 1]);
        }
        lemma_scan_to_the_end(whole, from + 1, Seq::empty());
        assert(Seq::<u8>::empty() + whole.skip(from + 1) =~= name);
    } else {
        assert(whole[from] == text[from]);
        if text[from] == SLASH {
            lemma_scan_appended_name(text, name, from + 1, Seq::empty());
            assert(seq![current] + (scan(text, from + 1, Seq::empty()) + seq![name]) =~= seq![
                current,
            ] + scan(text, from + 1, Seq::empty()) + seq![name]);
        } else {
            lemma_scan_appended_name(text, name, from + 1, current.push(text[from]));
        }
    }
}

/// The text of a path splits into an empty segment and the components of
/// the path.
pub proof fn lemma_render_splits_back(parts: Seq<Seq<u8>>)
    requires
        all_names(parts),
        parts.len() > 0,
    ensures
        segments(render(parts)) == seq![Seq::<u8>::empty()] + parts,
        is_absolute(render(parts)),
    decreases parts.len(),
{
    let front = parts.drop_last();
    let last = parts.last();
    assert(is_name(last));
    if front.len() == 0 {
        assert(render_parts(front) =~= Seq::<u8>::empty());
        lemma_scan_appended_name(Seq::empty(), last, 0, Seq::empty());
        assert(seq![Seq::<u8>::empty()] + seq![last] =~= seq![Seq::<u8>::empty()] + parts);
        assert(render(parts)[0] == SLASH);
    } else {
        assert forall|i: int| 0 <= i < front.len() implies is_name(#[trigger] front[i]) by {
            assert(front[i] == parts[i]);
        }
        lemma_render_splits_back(front);
        lemma_scan_appended_name(render_parts(front), last, 0, Seq::empty());
        assert(seq![Seq::<u8>::empty()] + front + seq![last] =~= seq![Seq::<u8>::empty()] + parts);
        assert(render(parts)[0] == render(front)[0]);
    }
}

/// The text of a path names that path: resolving it from the filesystem
/// root gives the path back.
pub proof fn lemma_render_resolves_back(parts: Seq<Seq<u8>>)
    requires
        all_names(parts),
    ensures
        is_absolute(render(parts)),
        resolved(Seq::empty(), Seq::empty(), render(parts)) == Some(parts),
{
    let top = Seq::<Seq<u8>>::empty();
    let nothing = Seq::<u8>::empty();
    if parts.len() == 0 {
        let segs = segments(render(parts));
        assert(render(parts) =~= seq![SLASH]);
        assert(segs =~= seq![nothing, nothing]) by {
            reveal_with_fuel(scan, 3);
        }
        assert(segs.skip(1) =~= seq![nothing]);
        assert(segs.skip(1).skip(1) =~= Seq::<Seq<u8>>::empty());
        assert(walk(top, top, segs.skip(1)) == Some(top)) by {
            reveal_with_fuel(walk, 2);
        }
        assert(top =~= parts);
    } else {
        lemma_render_splits_back(parts);
        let segs = seq![nothing] + parts;
        assert(segs[0] == nothing);
        assert(segs.skip(1) =~= parts);
        lemma_walk_descends(top, top, parts);
        assert(top + parts =~= parts);
    }
    assert(top =~= parts.subrange(0, 0));
}

/// Resolving a single name from a directory inside the sandbox gives the
/// subdirectory of that name.
pub proof fn lemma_resolve_name(root: Seq<Seq<u8>>, base: Seq<Seq<u8>>, name: Seq<u8>)
    requires
        root.is_prefix_of(base),
        is_name(name),
    ensures
        resolved(root, base, name) == Some(base.push(name)),
{
    lemma_segments_without_slash(name);
    assert(name[0] != SLASH);
    let segs = seq![name];
    assert(segs[0] == name);
    assert(walk(root, base.push(name), segs.skip(1)) == Some(base.push(name)));
    lemma_child_stays_within(root, base, name);
}

/// Resolving a path that is made of names only, from the sandbox root, gives
/// the directory that the names spell below the root.
pub proof fn lemma_resolve_descending(root: Seq<Seq<u8>>, rel: Seq<u8>)
    requires
        !is_absolute(rel),
        forall|i: int| 0 <= i < segments(rel).len() ==> is_name(#[trigger] segments(rel)[i]),
    ensures
        resolved(root, root, rel) == Some(root + segments(rel)),
{
    lemma_walk_descends(root, root, segments(rel));
    assert(root =~= (root + segments(rel)).subrange(0, root.len() as int));
}

/// Resolving a path from the sandbox root fails wherever following it comes
/// to a `..` at the root, and only there.
pub proof fn lemma_resolve_escape(root: Seq<Seq<u8>>, rel: Seq<u8>)
    requires
        !is_absolute(rel),
    ensures
        resolved(root, root, rel) is None <==> dips_below(segments(rel), 0),
{
    assert(root =~= root.subrange(0, root.len() as int));
    lemma_walk_refuses_escapes(root, root, segments(rel));
}

/// The path `..` is refused at the sandbox root.
pub proof fn lemma_resolve_dot_dot_at_root(root: Seq<Seq<u8>>)
    ensures
        resolved(root, root, dot_dot()) is None,
{
    assert(!dot_dot().contains(SLASH)) by {
        assert(dot_dot()[0] == DOT && dot_dot()[1] == DOT);
    }
    lemma_segments_without_slash(dot_dot());
    assert(dot_dot()[0] == DOT);
    let segs = seq![dot_dot()];
    assert(segs[0] == dot_dot());
    assert(dot_dot().len() == 2);
    assert(dot_dot() != dot()) by {
        assert(dot().len() == 1);
    }
}

/// Going up from the sandbox root always fails: with `NoParent` where the
/// sandbox is the whole filesystem, with `AboveRoot` otherwise.
pub proof fn lemma_up_from_root(root: Seq<Seq<u8>>)
    ensures
        parent_within(root, root) == if root.len() == 0 {
            Err::<Seq<Seq<u8>>, SandboxError>(SandboxError::NoParent)
        } else {
            Err::<Seq<Seq<u8>>, SandboxError>(SandboxError::AboveRoot)
        },
{
}

/// Going up from a direct child of the sandbox root leads to the root.
pub proof fn lemma_up_from_child(root: Seq<Seq<u8>>, name: Seq<u8>)
    ensures
        parent_within(root, root.push(name)) == Ok::<Seq<Seq<u8>>, SandboxError>(root),
{
    assert(root.push(name).drop_last() =~= root);
    assert(root =~= root.subrange(0, root.len() as int));
}

/// Going up from a directory inside the sandbox, if it succeeds, leads to a
/// directory inside the sandbox.
pub proof fn lemma_up_stays_within(root: Seq<Seq<u8>>, base: Seq<Seq<u8>>)
    ensures
        parent_within(root, base) matches Ok(dir) ==> root.is_prefix_of(dir),
{
}

} // verus!
