//! Digests of labeled file trees, independent of where the trees are checked out.
//!
//! [`PathDigestWalk`] decides what is hashed and in which order. Its caller
//! reads the file system: it resolves the path that the walk asks for, says
//! what it found there, and hands over file contents and directory listings.

use vstd::prelude::*;
use vstd::string::*;
use crate::digest::{
    field, fits, frames, lemma_frames_injective, sha256, Field, FileSizeChanged, InputDigest,
    InputHasher,
};
use crate::order::{
    byte_string_before, bytes_before, bytes_less, lemma_bytes_less_total,
    lemma_bytes_order, lemma_given_order_is_irrelevant, lemma_ranked_view, lemma_sorted_map,
    no_ties, sort_ranked, sorted_by, Ranked,
};
use crate::paths::{is_within, join, joined, paths_equal, same_path, starts_with};
use crate::text::{decimal, decimal_text, lossy, lossy_text};
use vstd::utf8::encode_utf8;

verus! {

/// One input under a stable label.
#[derive(Clone, Debug)]
pub struct LabeledPath {
    /// Checkout-independent label that is hashed in place of the path.
    pub label: Vec<u8>,
    /// Where the input is read.
    pub path: Vec<u8>,
}

/// What a labeled input says.
pub struct LabeledView {
    /// Checkout-independent label that is hashed in place of the path.
    pub label: Seq<u8>,
    /// Where the input is read.
    pub path: Seq<u8>,
}

impl View for LabeledPath {
    type V = LabeledView;

    open spec fn view(&self) -> LabeledView {
        LabeledView { label: self.label@, path: self.path@ }
    }
}

/// Views of a list of labeled inputs.
pub open spec fn labeled_views(inputs: Seq<LabeledPath>) -> Seq<LabeledView> {
    inputs.map_values(|input: LabeledPath| input@)
}

/// Inputs are ranked by the bytes of their labels.
impl Ranked for LabeledPath {
    open spec fn precedes(&self, other: &Self) -> bool {
        bytes_less(self.label@, other.label@)
    }

    fn comes_before(&self, other: &Self) -> (before: bool) {
        bytes_before(self.label.as_slice(), other.label.as_slice())
    }
}

/// A path that the walk still has to hash.
#[derive(Clone, Debug)]
pub struct PendingPath {
    /// Label to hash in place of the path.
    pub label: Vec<u8>,
    /// Where to read.
    pub path: Vec<u8>,
    /// Whether the path was declared, and not found in a directory.
    pub declared_root: bool,
}

/// What a pending path says.
pub struct PendingView {
    /// Label to hash in place of the path.
    pub label: Seq<u8>,
    /// Where to read.
    pub path: Seq<u8>,
    /// Whether the path was declared, and not found in a directory.
    pub declared_root: bool,
}

impl View for PendingPath {
    type V = PendingView;

    open spec fn view(&self) -> PendingView {
        PendingView { label: self.label@, path: self.path@, declared_root: self.declared_root }
    }
}

/// Inputs stand in the order of the bytes of their labels.
pub open spec fn label_before() -> spec_fn(LabeledView, LabeledView) -> bool {
    |left: LabeledView, right: LabeledView| bytes_less(left.label, right.label)
}

/// The pending path for a declared input.
pub open spec fn declared(input: LabeledView) -> PendingView {
    PendingView { label: input.label, path: input.path, declared_root: true }
}

/// The declared inputs in the order in which the walk reaches them.
pub open spec fn inputs_in_order(inputs: Seq<LabeledView>) -> Seq<PendingView> {
    sorted_by(inputs, label_before()).map_values(|input: LabeledView| declared(input))
}

/// The pending path for an entry of a directory.
pub open spec fn entry_of(directory: PendingView, name: Seq<u8>) -> PendingView {
    PendingView {
        label: joined(directory.label, name),
        path: joined(directory.path, name),
        declared_root: false,
    }
}

/// Views of a list of pending paths.
pub open spec fn pending_views(pending: Seq<PendingPath>) -> Seq<PendingView> {
    pending.map_values(|path: PendingPath| path@)
}

/// Bytes of a list of byte strings.
pub open spec fn byte_strings(strings: Seq<Vec<u8>>) -> Seq<Seq<u8>> {
    strings.map_values(|string: Vec<u8>| string@)
}

/// Whether `path` lies within one of `roots`.
pub open spec fn is_excluded(path: Seq<u8>, roots: Seq<Seq<u8>>) -> bool {
    exists|i: int| 0 <= i < roots.len() && is_within(path, #[trigger] roots[i])
}

/// Whether one of `visited` is the same directory as `path`.
pub open spec fn is_visited(path: Seq<u8>, visited: Seq<Seq<u8>>) -> bool {
    exists|i: int| 0 <= i < visited.len() && same_path(path, #[trigger] visited[i])
}

/// The entries of a directory in the order in which the walk reaches them.
pub open spec fn entries_in_order(directory: PendingView, names: Seq<Seq<u8>>) -> Seq<PendingView> {
    sorted_by(names, byte_string_before()).map_values(|name: Seq<u8>| entry_of(directory, name))
}

/// Whether a path lies within one of the given roots.
pub fn within_any(path: &[u8], roots: &Vec<Vec<u8>>) -> (within: bool)
    ensures
        within == is_excluded(path@, byte_strings(roots@)),
{
    let mut at: usize = 0;
    while at < roots.len()
        invariant
            at <= roots.len(),
            forall|i: int| 0 <= i < at ==> !is_within(path@, #[trigger] byte_strings(roots@)[i]),
        decreases roots.len() - at,
    {
        if starts_with(path, roots[at].as_slice()) {
            assert(is_within(path@, byte_strings(roots@)[at as int]));
            return true;
        }
        at = at + 1;
    }
    false
}

fn among(path: &[u8], visited: &Vec<Vec<u8>>) -> (found: bool)
    ensures
        found == is_visited(path@, byte_strings(visited@)),
{
    let mut at: usize = 0;
    while at < visited.len()
        invariant
            at <= visited.len(),
            forall|i: int| 0 <= i < at ==> !same_path(path@, #[trigger] byte_strings(visited@)[i]),
        decreases visited.len() - at,
    {
        if paths_equal(path, visited[at].as_slice()) {
            assert(same_path(path@, byte_strings(visited@)[at as int]));
            return true;
        }
        at = at + 1;
    }
    false
}

/// What a walk meets at the path that it looks at.
pub enum Met {
    /// An entry that lies within an excluded root.
    Excluded,
    /// A file.
    File {
        /// What the file holds.
        contents: Seq<u8>,
    },
    /// A directory that was not listed before.
    Directory {
        /// Names of its entries, in any order.
        names: Seq<Seq<u8>>,
    },
    /// A directory that was listed before.
    DirectoryAgain,
}

/// What has been hashed, and what is still to be hashed.
pub struct WalkState {
    /// Fields hashed so far.
    pub fields: Seq<Field>,
    /// Paths still to be hashed; the last one comes next.
    pub pending: Seq<PendingView>,
}

/// The state after the next path was met.
pub open spec fn after_meeting(state: WalkState, met: Met) -> WalkState {
    let top = state.pending.last();
    let rest = state.pending.drop_last();
    match met {
        Met::Excluded => WalkState { fields: state.fields, pending: rest },
        Met::File { contents } => WalkState {
            fields: state.fields.push(field("file-path"@, top.label)).push(
                field("file-content"@, contents),
            ),
            pending: rest,
        },
        Met::Directory { names } => WalkState {
            fields: state.fields.push(field("directory"@, top.label)),
            pending: rest + entries_in_order(top, names).reverse(),
        },
        Met::DirectoryAgain => WalkState {
            fields: state.fields.push(field("directory"@, top.label)).push(
                field("directory-already-visited"@, top.label),
            ),
            pending: rest,
        },
    }
}

/// The state at the start of a walk.
pub open spec fn walk_start(domain: Seq<char>, inputs: Seq<LabeledView>) -> WalkState {
    WalkState {
        fields: seq![field("domain"@, encode_utf8(domain))],
        pending: inputs_in_order(inputs).reverse(),
    }
}

/// One path that a walk met: where it resolves to, and what lies there.
pub struct Visit {
    /// Where the path resolves to.
    pub canonical: Seq<u8>,
    /// What was met there.
    pub met: Met,
}

/// What was met, one path after another.
pub open spec fn met_of(visits: Seq<Visit>) -> Seq<Met> {
    visits.map_values(|visit: Visit| visit.met)
}

/// Directories that were listed, in order.
pub open spec fn listed(visits: Seq<Visit>) -> Seq<Seq<u8>>
    decreases visits.len(),
{
    if visits.len() == 0 {
        seq![]
    } else if visits.last().met is Directory {
        listed(visits.drop_last()).push(visits.last().canonical)
    } else {
        listed(visits.drop_last())
    }
}

/// Whether a visit after others is what the place of its path asks for: a path within an excluded
/// root is left out, and a directory is listed once.
pub open spec fn is_due(visit: Visit, earlier: Seq<Visit>, excluded: Seq<Seq<u8>>) -> bool {
    &&& visit.met is Excluded <==> is_excluded(visit.canonical, excluded)
    &&& visit.met is Directory ==> !is_visited(visit.canonical, listed(earlier))
    &&& visit.met is DirectoryAgain ==> is_visited(visit.canonical, listed(earlier))
}

/// Whether every visit is what the place of its path asks for.
pub open spec fn are_due(visits: Seq<Visit>, excluded: Seq<Seq<u8>>) -> bool {
    forall|i: int|
        0 <= i < visits.len() ==> is_due(#[trigger] visits[i], visits.take(i), excluded)
}

/// The digest of a tree as a walk met it.
pub open spec fn tree_digest(start: WalkState, visits: Seq<Visit>) -> Seq<u8> {
    sha256(frames(walked(start, met_of(visits)).fields))
}

/// Whether a walk has met every path: none was met that was not pending, and none is left.
pub open spec fn is_whole_walk(start: WalkState, visits: Seq<Visit>, excluded: Seq<Seq<u8>>) -> bool {
    &&& has_paths_for(start, met_of(visits))
    &&& are_due(visits, excluded)
    &&& walked(start, met_of(visits)).pending.len() == 0
}

proof fn lemma_visit_more(start: WalkState, visits: Seq<Visit>, visit: Visit, excluded: Seq<Seq<u8>>)
    requires
        has_paths_for(start, met_of(visits)),
        are_due(visits, excluded),
        walked(start, met_of(visits)).pending.len() > 0,
        is_due(visit, visits, excluded),
    ensures
        has_paths_for(start, met_of(visits.push(visit))),
        are_due(visits.push(visit), excluded),
        walked(start, met_of(visits.push(visit))) == after_meeting(
            walked(start, met_of(visits)),
            visit.met,
        ),
        listed(visits.push(visit)) == if visit.met is Directory {
            listed(visits).push(visit.canonical)
        } else {
            listed(visits)
        },
{
    let more = visits.push(visit);
    let (met, more_met) = (met_of(visits), met_of(more));
    assert(more.drop_last() =~= visits);
    assert(more_met =~= met.push(visit.met));
    assert(more_met.drop_last() =~= met);
    assert forall|i: int| 0 <= i < more_met.len() implies #[trigger] walked(
        start,
        more_met.take(i),
    ).pending.len() > 0 by {
        assert(more_met.take(i) =~= met.take(i));
        assert(met.take(met.len() as int) =~= met);
    }
    assert forall|i: int| 0 <= i < more.len() implies is_due(
        #[trigger] more[i],
        more.take(i),
        excluded,
    ) by {
        assert(more.take(i) =~= visits.take(i));
        if i < visits.len() {
            assert(more[i] == visits[i]);
        } else {
            assert(visits.take(i) =~= visits);
        }
    }
}

/// Why a tree cannot be hashed.
#[derive(Clone, Debug)]
pub enum PathDigestError {
    /// A declared input lies inside an excluded root.
    ExcludedInput {
        /// Path of the declared input.
        path: Vec<u8>,
    },
    /// A watched input is neither a regular file nor a directory.
    NotFileOrDirectory {
        /// Path of the input.
        path: Vec<u8>,
    },
    /// A file changed its size while it was read.
    SizeChanged(FileSizeChanged),
}

/// The message of a failure.
pub open spec fn digest_error_text(error: PathDigestError) -> Seq<char> {
    match error {
        PathDigestError::ExcludedInput { path } =>
            "declared input is located inside an excluded cache root: "@ + lossy_text(path@),
        PathDigestError::NotFileOrDirectory { path } =>
            "watched input is not a regular file or directory: "@ + lossy_text(path@),
        PathDigestError::SizeChanged(change) => "file changed size while hashing: expected "@
            + decimal(change.expected as nat) + " bytes, read "@ + decimal(change.actual as nat),
    }
}

impl PathDigestError {
    /// The message of the failure.
    pub fn render(&self) -> (text: String)
        ensures
            text@ == digest_error_text(*self),
    {
        match self {
            PathDigestError::ExcludedInput { path } => {
                let mut text =
                    "declared input is located inside an excluded cache root: ".to_owned();
                text.append(lossy(path.as_slice()).as_str());
                text
            },
            PathDigestError::NotFileOrDirectory { path } => {
                let mut text = "watched input is not a regular file or directory: ".to_owned();
                text.append(lossy(path.as_slice()).as_str());
                text
            },
            PathDigestError::SizeChanged(change) => {
                let mut text = "file changed size while hashing: expected ".to_owned();
                text.append(decimal_text(change.expected as u128).as_str());
                text.append(" bytes, read ");
                text.append(decimal_text(change.actual as u128).as_str());
                text
            },
        }
    }
}

/// A walk over labeled trees that hashes what it meets.
pub struct PathDigestWalk {
    hasher: InputHasher,
    excluded: Vec<Vec<u8>>,
    visited: Vec<Vec<u8>>,
    pending: Vec<PendingPath>,
    start: Ghost<WalkState>,
    visits: Ghost<Seq<Visit>>,
    entered: Ghost<Option<Seq<u8>>>,
    opened: Ghost<bool>,
}

impl PathDigestWalk {
    /// The state in which the walk started.
    pub closed spec fn start(&self) -> WalkState {
        self.start@
    }

    /// The paths that the walk has met.
    pub closed spec fn visits(&self) -> Seq<Visit> {
        self.visits@
    }

    /// Where the next path resolves to, once it was found not to be excluded.
    pub closed spec fn entered(&self) -> Option<Seq<u8>> {
        self.entered@
    }

    /// Whether the entries of the next path have to be listed.
    pub closed spec fn opened(&self) -> bool {
        self.opened@
    }

    /// Whether the walk stands between two paths.
    pub open spec fn is_between(&self) -> bool {
        !self.in_file() && !self.opened() && self.entered() is None
    }

    /// Fields hashed so far, the domain first.
    pub closed spec fn fields(&self) -> Seq<Field> {
        self.hasher@
    }

    /// Paths still to be hashed; the last one comes next.
    pub closed spec fn pending(&self) -> Seq<PendingView> {
        pending_views(self.pending@)
    }

    /// Directories whose entries have been listed.
    pub closed spec fn visited(&self) -> Seq<Seq<u8>> {
        byte_strings(self.visited@)
    }

    /// Roots below which nothing is hashed.
    pub closed spec fn excluded(&self) -> Seq<Seq<u8>> {
        byte_strings(self.excluded@)
    }

    /// What has been hashed, and what is still to be hashed.
    pub open spec fn state(&self) -> WalkState {
        WalkState { fields: self.fields(), pending: self.pending() }
    }

    /// The state before the next path was announced by the last field.
    pub open spec fn before_entry(&self) -> WalkState {
        WalkState { fields: self.fields().drop_last(), pending: self.pending() }
    }

    /// Whether the contents of the next path are being taken in.
    pub closed spec fn in_file(&self) -> bool {
        self.hasher.in_file()
    }

    /// Promised length of the file being taken in.
    pub closed spec fn file_expected(&self) -> nat {
        self.hasher.file_expected()
    }

    /// Contents taken in of the file so far.
    pub closed spec fn file_contents(&self) -> Seq<u8> {
        self.hasher.file_contents()
    }

    /// Whether the parts of the walk agree.
    pub closed spec fn wf(&self) -> bool {
        &&& self.hasher.wf()
        &&& self.hasher.in_file() ==> self.hasher.file_label() == "file-content"@
            && self.pending@.len() > 0 && self.hasher@.len() > 0 && self.hasher@.last() == field(
            "file-path"@,
            self.pending().last().label,
        )
        &&& self.opened() ==> {
            &&& !self.hasher.in_file()
            &&& self.entered() is Some
            &&& self.fields().len() > 0
            &&& self.fields().last() == field("directory"@, self.pending().last().label)
            &&& !is_visited(self.entered()->0, listed(self.visits()))
        }
        &&& self.hasher.in_file() ==> self.entered() is Some
        &&& self.entered() is Some ==> self.pending().len() > 0 && !is_excluded(
            self.entered()->0,
            self.excluded(),
        )
        &&& walked(self.start(), met_of(self.visits())) == if self.hasher.in_file() || self.opened() {
            self.before_entry()
        } else {
            self.state()
        }
        &&& has_paths_for(self.start(), met_of(self.visits()))
        &&& are_due(self.visits(), self.excluded())
        &&& self.visited() == if self.opened() {
            listed(self.visits()).push(self.entered()->0)
        } else {
            listed(self.visits())
        }
    }

    /// Start a walk over `inputs`, in the order of their labels, below `domain`.
    ///
    /// `excluded` holds the resolved roots below which nothing is hashed.
    pub fn new(domain: &str, inputs: Vec<LabeledPath>, excluded: Vec<Vec<u8>>) -> (walk: Self)
        ensures
            walk.wf(),
            walk.is_between(),
            walk.state() == walk_start(domain@, labeled_views(inputs@)),
            walk.start() == walk.state(),
            walk.visits() == Seq::<Visit>::empty(),
            walk.visited() == Seq::<Seq<u8>>::empty(),
            walk.excluded() == byte_strings(excluded@),
    {
        let mut rest = inputs;
        sort_ranked(&mut rest);
        let ghost sorted = rest@;
        let ghost ordered = inputs_in_order(labeled_views(inputs@));
        proof {
            lemma_ranked_view(inputs@, |input: LabeledPath| input@, label_before());
            assert(labeled_views(sorted) == sorted_by(labeled_views(inputs@), label_before()));
            assert(ordered.len() == sorted.len());
            assert forall|i: int| 0 <= i < sorted.len() implies #[trigger] ordered[i] == declared(
                sorted[i]@,
            ) by {
                assert(labeled_views(sorted)[i] == sorted[i]@);
            }
        }
        let mut pending: Vec<PendingPath> = Vec::new();
        while rest.len() > 0
            invariant
                rest@.len() <= sorted.len(),
                rest@ == sorted.take(rest@.len() as int),
                ordered.len() == sorted.len(),
                forall|i: int|
                    0 <= i < sorted.len() ==> #[trigger] ordered[i] == declared(sorted[i]@),
                pending_views(pending@) == ordered.skip(rest@.len() as int).reverse(),
            decreases rest.len(),
        {
            let ghost left = rest@.len() - 1;
            let ghost before = pending@;
            if let Some(LabeledPath { label, path }) = rest.pop() {
                pending.push(PendingPath { label, path, declared_root: true });
                proof {
                    assert(rest@ =~= sorted.take(left));
                    assert(ordered.skip(left) =~= seq![ordered[left]] + ordered.skip(left + 1));
                    assert(pending_views(pending@) =~= pending_views(before).push(ordered[left]));
                    assert(pending_views(pending@) =~= ordered.skip(left).reverse());
                }
            }
        }
        assert(ordered.skip(0) =~= ordered);
        let visited: Vec<Vec<u8>> = Vec::new();
        assert(byte_strings(visited@) =~= Seq::<Seq<u8>>::empty());
        let hasher = InputHasher::new(domain);
        let ghost start = WalkState { fields: hasher@, pending: pending_views(pending@) };
        assert(met_of(Seq::<Visit>::empty()) =~= Seq::<Met>::empty());
        PathDigestWalk {
            hasher,
            excluded,
            visited,
            pending,
            start: Ghost(start),
            visits: Ghost(Seq::empty()),
            entered: Ghost(None),
            opened: Ghost(false),
        }
    }

    /// The path to look at next, or `None` when everything has been hashed.
    pub fn next(&self) -> (pending: Option<&PendingPath>)
        ensures
            pending is None == (self.pending().len() == 0),
            pending matches Some(path) ==> path@ == self.pending().last(),
    {
        if self.pending.len() == 0 {
            None
        } else {
            Some(&self.pending[self.pending.len() - 1])
        }
    }

    /// Decide whether the next path, resolved to `canonical`, is hashed at all.
    ///
    /// An excluded entry is dropped from the walk; an excluded declared input
    /// is an error.
    pub fn enter(&mut self, canonical: &[u8]) -> (result: Result<bool, PathDigestError>)
        requires
            old(self).wf(),
            old(self).is_between(),
            old(self).pending().len() > 0,
        ensures
            final(self).wf(),
            !final(self).in_file(),
            !final(self).opened(),
            final(self).start() == old(self).start(),
            final(self).fields() == old(self).fields(),
            final(self).visited() == old(self).visited(),
            final(self).excluded() == old(self).excluded(),
            match result {
                Ok(true) => {
                    &&& !is_excluded(canonical@, old(self).excluded())
                    &&& final(self).pending() == old(self).pending()
                    &&& final(self).entered() == Some(canonical@)
                    &&& final(self).visits() == old(self).visits()
                },
                Ok(false) => {
                    &&& is_excluded(canonical@, old(self).excluded())
                    &&& !old(self).pending().last().declared_root
                    &&& final(self).state() == after_meeting(old(self).state(), Met::Excluded)
                    &&& final(self).entered() is None
                    &&& final(self).visits() == old(self).visits().push(
                        Visit { canonical: canonical@, met: Met::Excluded },
                    )
                },
                Err(error) => {
                    &&& *final(self) == *old(self)
                    &&& is_excluded(canonical@, old(self).excluded())
                    &&& old(self).pending().last().declared_root
                    &&& error matches PathDigestError::ExcludedInput { path } && path@ == old(
                        self,
                    ).pending().last().path
                },
            },
    {
        if !within_any(canonical, &self.excluded) {
            self.entered = Ghost(Some(canonical@));
            return Ok(true);
        }
        let top = &self.pending[self.pending.len() - 1];
        assert(pending_views(self.pending@).last() == top@);
        if top.declared_root {
            return Err(
                PathDigestError::ExcludedInput {
                    path: vstd::slice::slice_to_vec(top.path.as_slice()),
                },
            );
        }
        let ghost visit = Visit { canonical: canonical@, met: Met::Excluded };
        proof {
            lemma_visit_more(self.start(), self.visits(), visit, self.excluded());
        }
        self.pending.pop();
        self.visits = Ghost(self.visits@.push(visit));
        assert(pending_views(self.pending@) =~= old(self).pending().drop_last());
        Ok(false)
    }

    /// Start to take in the next path as a file of `expected` bytes.
    pub fn begin_file(&mut self, expected: u64)
        requires
            old(self).wf(),
            !old(self).in_file(),
            !old(self).opened(),
            old(self).entered() is Some,
        ensures
            final(self).wf(),
            final(self).in_file(),
            !final(self).opened(),
            final(self).start() == old(self).start(),
            final(self).visits() == old(self).visits(),
            final(self).entered() == old(self).entered(),
            final(self).fields() == old(self).fields().push(
                field("file-path"@, old(self).pending().last().label),
            ),
            final(self).pending() == old(self).pending(),
            final(self).before_entry() == old(self).state(),
            final(self).visited() == old(self).visited(),
            final(self).excluded() == old(self).excluded(),
            final(self).file_expected() == expected,
            final(self).file_contents() == Seq::<u8>::empty(),
    {
        assert(pending_views(self.pending@).last() == self.pending@.last()@);
        let top = &self.pending[self.pending.len() - 1];
        self.hasher.field("file-path", top.label.as_slice());
        self.hasher.begin_file_field("file-content", expected);
        assert(self.fields().drop_last() =~= old(self).fields());
    }

    /// Take in the next bytes of the file.
    pub fn file_chunk(&mut self, bytes: &[u8])
        requires
            old(self).wf(),
            old(self).in_file(),
            old(self).file_contents().len() + bytes@.len() <= u64::MAX,
        ensures
            final(self).wf(),
            final(self).in_file(),
            final(self).opened() == old(self).opened(),
            final(self).start() == old(self).start(),
            final(self).visits() == old(self).visits(),
            final(self).entered() == old(self).entered(),
            final(self).fields() == old(self).fields(),
            final(self).pending() == old(self).pending(),
            final(self).visited() == old(self).visited(),
            final(self).excluded() == old(self).excluded(),
            final(self).file_expected() == old(self).file_expected(),
            final(self).file_contents() == old(self).file_contents() + bytes@,
    {
        self.hasher.file_chunk(bytes);
    }

    /// Close the file and go on behind it; a file of another length ends the walk.
    pub fn end_file(self) -> (result: Result<Self, PathDigestError>)
        requires
            self.wf(),
            self.in_file(),
        ensures
            result is Ok == (self.file_contents().len() == self.file_expected()),
            result matches Ok(walk) ==> {
                &&& walk.wf()
                &&& walk.is_between()
                &&& walk.start() == self.start()
                &&& walk.visits() == self.visits().push(
                    Visit {
                        canonical: self.entered()->0,
                        met: Met::File { contents: self.file_contents() },
                    },
                )
                &&& walk.state() == after_meeting(
                    self.before_entry(),
                    Met::File { contents: self.file_contents() },
                )
                &&& walk.visited() == self.visited()
                &&& walk.excluded() == self.excluded()
            },
            result matches Err(error) ==> {
                &&& error matches PathDigestError::SizeChanged(change)
                &&& change.expected == self.file_expected()
                &&& change.actual == self.file_contents().len()
            },
    {
        let ghost visit = Visit {
            canonical: self.entered()->0,
            met: Met::File { contents: self.file_contents() },
        };
        proof {
            lemma_visit_more(self.start(), self.visits(), visit, self.excluded());
        }
        let PathDigestWalk { hasher, excluded, visited, mut pending, start, visits, .. } = self;
        match hasher.end_file_field() {
            Ok((_, hasher)) => {
                pending.pop();
                assert(pending_views(pending@) =~= self.pending().drop_last());
                assert(self.fields() =~= self.fields().drop_last().push(self.fields().last()));
                Ok(
                    PathDigestWalk {
                        hasher,
                        excluded,
                        visited,
                        pending,
                        start,
                        visits: Ghost(visits@.push(visit)),
                        entered: Ghost(None),
                        opened: Ghost(false),
                    },
                )
            },
            Err(change) => Err(PathDigestError::SizeChanged(change)),
        }
    }

    /// Hash the next path as a directory resolved to `canonical`.
    ///
    /// Returns whether its entries have to be listed: a directory that was
    /// listed before is only marked.
    pub fn open_directory(&mut self, canonical: &[u8]) -> (list: bool)
        requires
            old(self).wf(),
            !old(self).in_file(),
            !old(self).opened(),
            old(self).entered() == Some(canonical@),
        ensures
            final(self).wf(),
            !final(self).in_file(),
            final(self).opened() == list,
            final(self).start() == old(self).start(),
            final(self).excluded() == old(self).excluded(),
            list == !is_visited(canonical@, old(self).visited()),
            list ==> {
                &&& final(self).fields() == old(self).fields().push(
                    field("directory"@, old(self).pending().last().label),
                )
                &&& final(self).pending() == old(self).pending()
                &&& final(self).before_entry() == old(self).state()
                &&& final(self).visited() == old(self).visited().push(canonical@)
                &&& final(self).visits() == old(self).visits()
                &&& final(self).entered() == old(self).entered()
            },
            !list ==> {
                &&& final(self).state() == after_meeting(old(self).state(), Met::DirectoryAgain)
                &&& final(self).visited() == old(self).visited()
                &&& final(self).is_between()
                &&& final(self).visits() == old(self).visits().push(
                    Visit { canonical: canonical@, met: Met::DirectoryAgain },
                )
            },
    {
        assert(pending_views(self.pending@).last() == self.pending@.last()@);
        let top = &self.pending[self.pending.len() - 1];
        self.hasher.field("directory", top.label.as_slice());
        if among(canonical, &self.visited) {
            let ghost visit = Visit { canonical: canonical@, met: Met::DirectoryAgain };
            proof {
                lemma_visit_more(self.start(), self.visits(), visit, self.excluded());
            }
            self.hasher.field("directory-already-visited", top.label.as_slice());
            self.pending.pop();
            self.visits = Ghost(self.visits@.push(visit));
            self.entered = Ghost(None);
            assert(pending_views(self.pending@) =~= old(self).pending().drop_last());
            return false;
        }
        self.visited.push(vstd::slice::slice_to_vec(canonical));
        assert(byte_strings(self.visited@) =~= old(self).visited().push(canonical@));
        assert(self.fields().drop_last() =~= old(self).fields());
        self.opened = Ghost(true);
        true
    }

    /// Go on with the entries of the directory that was just opened, by name.
    pub fn list_directory(&mut self, names: Vec<Vec<u8>>)
        requires
            old(self).wf(),
            old(self).opened(),
        ensures
            final(self).wf(),
            final(self).is_between(),
            final(self).start() == old(self).start(),
            final(self).visits() == old(self).visits().push(
                Visit {
                    canonical: old(self).entered()->0,
                    met: Met::Directory { names: byte_strings(names@) },
                },
            ),
            final(self).visited() == old(self).visited(),
            final(self).excluded() == old(self).excluded(),
            final(self).state() == after_meeting(
                old(self).before_entry(),
                Met::Directory { names: byte_strings(names@) },
            ),
    {
        assert(self.fields() =~= self.fields().drop_last().push(self.fields().last()));
        let ghost visit = Visit {
            canonical: self.entered()->0,
            met: Met::Directory { names: byte_strings(names@) },
        };
        proof {
            lemma_visit_more(self.start(), self.visits(), visit, self.excluded());
        }
        let ghost before = self.pending@;
        let ghost directory = pending_views(before).last();
        let ghost ordered = entries_in_order(directory, byte_strings(names@));
        let mut rest = names;
        sort_ranked(&mut rest);
        let ghost sorted = rest@;
        proof {
            lemma_ranked_view(names@, |name: Vec<u8>| name@, byte_string_before());
            assert(ordered.len() == sorted.len());
            assert forall|i: int| 0 <= i < sorted.len() implies #[trigger] ordered[i] == entry_of(
                directory,
                sorted[i]@,
            ) by {
                assert(byte_strings(sorted)[i] == sorted[i]@);
            }
        }
        let top = self.pending.pop();
        assert(pending_views(self.pending@) =~= pending_views(before).drop_last());
        if let Some(top) = top {
            assert(top@ == directory);
            let ghost kept = pending_views(self.pending@);
            assert(pending_views(self.pending@) =~= kept + ordered.skip(
                sorted.len() as int,
            ).reverse());
            while rest.len() > 0
                invariant
                    rest@.len() <= sorted.len(),
                    rest@ == sorted.take(rest@.len() as int),
                    top@ == directory,
                    self.hasher == old(self).hasher,
                    self.visited == old(self).visited,
                    self.excluded == old(self).excluded,
                    self.start == old(self).start,
                    self.visits == old(self).visits,
                    ordered.len() == sorted.len(),
                    forall|i: int|
                        0 <= i < sorted.len() ==> #[trigger] ordered[i] == entry_of(
                            directory,
                            sorted[i]@,
                        ),
                    pending_views(self.pending@) == kept + ordered.skip(
                        rest@.len() as int,
                    ).reverse(),
                decreases rest.len(),
            {
                let ghost left = rest@.len() - 1;
                let ghost so_far = self.pending@;
                if let Some(name) = rest.pop() {
                    self.pending.push(
                        PendingPath {
                            label: join(top.label.as_slice(), name.as_slice()),
                            path: join(top.path.as_slice(), name.as_slice()),
                            declared_root: false,
                        },
                    );
                    proof {
                        assert(rest@ =~= sorted.take(left));
                        assert(ordered.skip(left) =~= seq![ordered[left]] + ordered.skip(left + 1));
                        assert(self.pending@.last()@ == ordered[left]);
                        assert(pending_views(self.pending@) =~= pending_views(so_far).push(
                            ordered[left],
                        ));
                        assert(pending_views(self.pending@) =~= kept + ordered.skip(
                            left,
                        ).reverse());
                    }
                }
            }
            assert(ordered.skip(0) =~= ordered);
        }
        self.visits = Ghost(self.visits@.push(visit));
        self.entered = Ghost(None);
        self.opened = Ghost(false);
    }

    /// The error for a next path that is neither a regular file nor a directory.
    pub fn reject(self) -> (error: PathDigestError)
        requires
            self.pending().len() > 0,
        ensures
            error matches PathDigestError::NotFileOrDirectory { path } && path@
                == self.pending().last().path,
    {
        let mut pending = self.pending;
        assert(pending_views(pending@).last() == pending@.last()@);
        match pending.pop() {
            Some(top) => PathDigestError::NotFileOrDirectory { path: top.path },
            None => PathDigestError::NotFileOrDirectory { path: Vec::new() },
        }
    }

    /// The digest of everything hashed, once no path is left.
    pub fn finish(self) -> (digest: InputDigest)
        requires
            self.wf(),
            self.is_between(),
            self.pending().len() == 0,
        ensures
            digest@ == sha256(frames(self.fields())),
            digest@ == tree_digest(self.start(), self.visits()),
            is_whole_walk(self.start(), self.visits(), self.excluded()),
    {
        self.hasher.finish()
    }
}

/// The state after a walk met one thing after another.
pub open spec fn walked(state: WalkState, met: Seq<Met>) -> WalkState
    decreases met.len(),
{
    if met.len() == 0 {
        state
    } else {
        after_meeting(walked(state, met.drop_last()), met.last())
    }
}

/// Whether two lists of pending paths carry the same labels.
pub open spec fn labels_alike(left: Seq<PendingView>, right: Seq<PendingView>) -> bool {
    left.map_values(|path: PendingView| path.label) == right.map_values(
        |path: PendingView| path.label,
    )
}

/// Whether two things that are met are the same but for the order of listed names.
pub open spec fn met_alike(left: Met, right: Met) -> bool {
    match (left, right) {
        (Met::Directory { names }, Met::Directory { names: others }) => names.to_multiset()
            == others.to_multiset(),
        _ => left == right,
    }
}

proof fn lemma_names_do_not_tie(names: Seq<Seq<u8>>)
    ensures
        no_ties(names, byte_string_before()),
{
    assert forall|i: int, j: int|
        0 <= i < names.len() && 0 <= j < names.len() && i != j implies byte_string_before()(
        #[trigger] names[i],
        #[trigger] names[j],
    ) || byte_string_before()(names[j], names[i]) || names[i] == names[j] by {
        lemma_bytes_less_total(names[i], names[j]);
    }
}

proof fn lemma_meeting_keeps_labels_alike(left: WalkState, right: WalkState, met: Met, other: Met)
    requires
        left.fields == right.fields,
        labels_alike(left.pending, right.pending),
        left.pending.len() > 0,
        met_alike(met, other),
    ensures
        after_meeting(left, met).fields == after_meeting(right, other).fields,
        labels_alike(after_meeting(left, met).pending, after_meeting(right, other).pending),
{
    let label = |path: PendingView| path.label;
    let (a, b) = (left.pending, right.pending);
    assert(a.map_values(label).len() == b.map_values(label).len());
    assert(a.map_values(label)[a.len() - 1] == b.map_values(label)[b.len() - 1]);
    assert(a.last().label == b.last().label);
    assert(a.drop_last().map_values(label) =~= a.map_values(label).drop_last());
    assert(b.drop_last().map_values(label) =~= b.map_values(label).drop_last());
    if let Met::Directory { names } = met {
        let others = other->names;
        lemma_names_do_not_tie(names);
        lemma_bytes_order(|name: Seq<u8>| name, byte_string_before());
        lemma_given_order_is_irrelevant(names, others, byte_string_before());
        let x = entries_in_order(a.last(), names);
        let y = entries_in_order(b.last(), others);
        assert(x.len() == y.len());
        assert forall|i: int| 0 <= i < x.len() implies (#[trigger] x[i]).label == y[i].label by {}
        let p = a.drop_last() + x.reverse();
        let q = b.drop_last() + y.reverse();
        assert(p.map_values(label) =~= a.drop_last().map_values(label) + x.reverse().map_values(
            label,
        ));
        assert(q.map_values(label) =~= b.drop_last().map_values(label) + y.reverse().map_values(
            label,
        ));
        assert(x.reverse().map_values(label) =~= y.reverse().map_values(label));
    }
}

/// Whether a walk has a path to look at each time it meets something.
pub open spec fn has_paths_for(state: WalkState, met: Seq<Met>) -> bool {
    forall|i: int| 0 <= i < met.len() ==> #[trigger] walked(state, met.take(i)).pending.len() > 0
}

/// Walks that meet things alike hash the same fields and go on under the same labels.
pub proof fn lemma_walks_stay_alike(left: WalkState, right: WalkState, met: Seq<Met>, other: Seq<Met>)
    requires
        left.fields == right.fields,
        labels_alike(left.pending, right.pending),
        met.len() == other.len(),
        forall|i: int| 0 <= i < met.len() ==> met_alike(#[trigger] met[i], other[i]),
        has_paths_for(left, met),
    ensures
        walked(left, met).fields == walked(right, other).fields,
        labels_alike(walked(left, met).pending, walked(right, other).pending),
    decreases met.len(),
{
    if met.len() > 0 {
        let end = met.len() - 1;
        assert(has_paths_for(left, met.drop_last())) by {
            assert forall|i: int| 0 <= i < end implies #[trigger] walked(
                left,
                met.drop_last().take(i),
            ).pending.len() > 0 by {
                assert(met.drop_last().take(i) =~= met.take(i));
            }
        }
        assert forall|i: int| 0 <= i < end implies met_alike(
            #[trigger] met.drop_last()[i],
            other.drop_last()[i],
        ) by {
            assert(met_alike(met[i], other[i]));
        }
        lemma_walks_stay_alike(left, right, met.drop_last(), other.drop_last());
        assert(met.take(end) =~= met.drop_last());
        assert(walked(left, met.take(end)).pending.len() > 0);
        assert(met_alike(met[end], other[end]));
        lemma_meeting_keeps_labels_alike(
            walked(left, met.drop_last()),
            walked(right, other.drop_last()),
            met.last(),
            other.last(),
        );
    }
}

/// Labels of a list of labeled inputs.
pub open spec fn labels_of(inputs: Seq<LabeledView>) -> Seq<Seq<u8>> {
    inputs.map_values(|input: LabeledView| input.label)
}

proof fn lemma_sorted_labels(inputs: Seq<LabeledView>)
    ensures
        labels_of(sorted_by(inputs, label_before())) == sorted_by(
            labels_of(inputs),
            byte_string_before(),
        ),
{
    lemma_sorted_map(
        inputs,
        |input: LabeledView| input.label,
        label_before(),
        byte_string_before(),
    );
}

/// Two walks over the same labels hash the same when they meet the same things.
///
/// Neither where the inputs lie, nor the order in which they are declared, nor
/// the order in which directories list their entries reaches the digest.
pub proof fn lemma_location_and_order_are_irrelevant(
    domain: Seq<char>,
    left: Seq<LabeledView>,
    right: Seq<LabeledView>,
    met: Seq<Met>,
    other: Seq<Met>,
)
    requires
        labels_of(left).to_multiset() == labels_of(right).to_multiset(),
        met.len() == other.len(),
        forall|i: int| 0 <= i < met.len() ==> met_alike(#[trigger] met[i], other[i]),
        has_paths_for(walk_start(domain, left), met),
    ensures
        walked(walk_start(domain, left), met).fields == walked(
            walk_start(domain, right),
            other,
        ).fields,
{
    lemma_starts_alike(domain, left, right);
    lemma_walks_stay_alike(walk_start(domain, left), walk_start(domain, right), met, other);
}

/// Walks over inputs under the same labels start alike, in whichever order the inputs are given.
pub proof fn lemma_starts_alike(domain: Seq<char>, left: Seq<LabeledView>, right: Seq<LabeledView>)
    requires
        labels_of(left).to_multiset() == labels_of(right).to_multiset(),
    ensures
        walk_start(domain, left).fields == walk_start(domain, right).fields,
        labels_alike(walk_start(domain, left).pending, walk_start(domain, right).pending),
{
    let label = |path: PendingView| path.label;
    lemma_sorted_labels(left);
    lemma_sorted_labels(right);
    lemma_names_do_not_tie(labels_of(left));
    lemma_bytes_order(|name: Seq<u8>| name, byte_string_before());
    lemma_given_order_is_irrelevant(labels_of(left), labels_of(right), byte_string_before());
    let x = inputs_in_order(left);
    let y = inputs_in_order(right);
    assert(x.map_values(label) =~= labels_of(sorted_by(left, label_before())));
    assert(y.map_values(label) =~= labels_of(sorted_by(right, label_before())));
    assert(x.reverse().map_values(label) =~= x.map_values(label).reverse());
    assert(y.reverse().map_values(label) =~= y.map_values(label).reverse());
}

/// What is hashed of a path that a walk meets.
pub enum Hashed {
    /// A file.
    File {
        /// Label of the file.
        label: Seq<u8>,
        /// What the file holds.
        contents: Seq<u8>,
    },
    /// A directory that was not listed before.
    Directory {
        /// Label of the directory.
        label: Seq<u8>,
    },
    /// A directory that was listed before.
    DirectoryAgain {
        /// Label of the directory.
        label: Seq<u8>,
    },
}

/// What is hashed of one path; nothing of an excluded one.
pub open spec fn hashed_of(path: PendingView, met: Met) -> Seq<Hashed> {
    match met {
        Met::Excluded => seq![],
        Met::File { contents } => seq![Hashed::File { label: path.label, contents }],
        Met::Directory { .. } => seq![Hashed::Directory { label: path.label }],
        Met::DirectoryAgain => seq![Hashed::DirectoryAgain { label: path.label }],
    }
}

/// Everything that a walk hashes, in order: each file with its contents, and each directory.
pub open spec fn hashed(state: WalkState, met: Seq<Met>) -> Seq<Hashed>
    decreases met.len(),
{
    if met.len() == 0 {
        seq![]
    } else {
        hashed(state, met.drop_last()) + hashed_of(
            walked(state, met.drop_last()).pending.last(),
            met.last(),
        )
    }
}

spec fn fields_of(item: Hashed) -> Seq<Field> {
    match item {
        Hashed::File { label, contents } => seq![
            field("file-path"@, label),
            field("file-content"@, contents),
        ],
        Hashed::Directory { label } => seq![field("directory"@, label)],
        Hashed::DirectoryAgain { label } => seq![
            field("directory"@, label),
            field("directory-already-visited"@, label),
        ],
    }
}

spec fn fields_of_all(items: Seq<Hashed>) -> Seq<Field>
    decreases items.len(),
{
    if items.len() == 0 {
        seq![]
    } else {
        fields_of_all(items.drop_last()) + fields_of(items.last())
    }
}

proof fn lemma_walk_fields(state: WalkState, met: Seq<Met>)
    ensures
        walked(state, met).fields == state.fields + fields_of_all(hashed(state, met)),
    decreases met.len(),
{
    let items = hashed(state, met);
    if met.len() == 0 {
        assert(state.fields + fields_of_all(items) =~= state.fields);
    } else {
        let before = walked(state, met.drop_last());
        let earlier = hashed(state, met.drop_last());
        lemma_walk_fields(state, met.drop_last());
        let added = hashed_of(before.pending.last(), met.last());
        if met.last() is Excluded {
            assert(items =~= earlier);
        } else {
            assert(items.drop_last() =~= earlier);
            assert(items.last() == added[0]);
        }
        assert(walked(state, met).fields =~= state.fields + fields_of_all(items));
    }
}

proof fn lemma_last_fields(items: Seq<Hashed>)
    requires
        items.len() > 0,
    ensures
        ({
            let fields = fields_of_all(items);
            &&& fields.len() > 0
            &&& items.last() is File <==> fields.last().label == "file-content"@
            &&& items.last() is Directory <==> fields.last().label == "directory"@
            &&& items.last() is DirectoryAgain <==> fields.last().label
                == "directory-already-visited"@
        }),
{
    reveal_strlit("file-content");
    reveal_strlit("directory");
    reveal_strlit("directory-already-visited");
    assert("file-content"@.len() == 12);
    assert("directory"@.len() == 9);
    assert("directory-already-visited"@.len() == 25);
    let fields = fields_of_all(items);
    assert(fields.last() == fields_of(items.last()).last());
}

proof fn lemma_hashed_fields_injective(left: Seq<Hashed>, right: Seq<Hashed>)
    requires
        fields_of_all(left) == fields_of_all(right),
    ensures
        left == right,
    decreases left.len(),
{
    if left.len() == 0 || right.len() == 0 {
        if left.len() > 0 {
            lemma_last_fields(left);
        }
        if right.len() > 0 {
            lemma_last_fields(right);
        }
        assert(left =~= right);
    } else {
        lemma_last_fields(left);
        lemma_last_fields(right);
        let fields = fields_of_all(left);
        let (a, b) = (fields_of(left.last()), fields_of(right.last()));
        assert(a.len() == b.len());
        assert(a =~= fields.skip(fields.len() - a.len()));
        assert(b =~= fields.skip(fields.len() - a.len()));
        assert(a[0] == b[0] && a.last() == b.last());
        assert(left.last() == right.last());
        assert(fields_of_all(left.drop_last()) =~= fields.take(fields.len() - a.len()));
        assert(fields_of_all(right.drop_last()) =~= fields.take(fields.len() - a.len()));
        lemma_hashed_fields_injective(left.drop_last(), right.drop_last());
        assert(left =~= left.drop_last().push(left.last()));
        assert(right =~= right.drop_last().push(right.last()));
    }
}

/// What a walk hashes begins with the fields that it started with.
pub proof fn lemma_walk_keeps_fields(start: WalkState, met: Seq<Met>)
    ensures
        start.fields.is_prefix_of(walked(start, met).fields),
{
    lemma_walk_fields(start, met);
}

/// Walks that start with the same fields hash the same fields exactly when they hash the same
/// files and directories.
pub proof fn lemma_fields_tell_hashed(
    left: WalkState,
    met: Seq<Met>,
    right: WalkState,
    other: Seq<Met>,
)
    requires
        left.fields == right.fields,
    ensures
        walked(left, met).fields == walked(right, other).fields <==> hashed(left, met) == hashed(
            right,
            other,
        ),
{
    let (a, b) = (fields_of_all(hashed(left, met)), fields_of_all(hashed(right, other)));
    lemma_walk_fields(left, met);
    lemma_walk_fields(right, other);
    if walked(left, met).fields == walked(right, other).fields {
        let start = left.fields.len() as int;
        assert(a =~= walked(left, met).fields.skip(start));
        assert(b =~= walked(right, other).fields.skip(start));
        lemma_hashed_fields_injective(hashed(left, met), hashed(right, other));
    }
}

/// Walks that meet different files, or directories under different labels, hash different bytes,
/// and so do walks under different domains.
pub proof fn lemma_different_trees_hash_differently(
    domain: Seq<char>,
    inputs: Seq<LabeledView>,
    met: Seq<Met>,
    other_domain: Seq<char>,
    other_inputs: Seq<LabeledView>,
    other_met: Seq<Met>,
)
    requires
        ({
            let fields = walked(walk_start(domain, inputs), met).fields;
            forall|i: int| 0 <= i < fields.len() ==> fits(#[trigger] fields[i])
        }),
        ({
            let fields = walked(walk_start(other_domain, other_inputs), other_met).fields;
            forall|i: int| 0 <= i < fields.len() ==> fits(#[trigger] fields[i])
        }),
        domain != other_domain || hashed(walk_start(domain, inputs), met) != hashed(
            walk_start(other_domain, other_inputs),
            other_met,
        ),
    ensures
        frames(walked(walk_start(domain, inputs), met).fields) != frames(
            walked(walk_start(other_domain, other_inputs), other_met).fields,
        ),
{
    broadcast use vstd::utf8::encode_utf8_decode_utf8;

    let (start, other_start) = (
        walk_start(domain, inputs),
        walk_start(other_domain, other_inputs),
    );
    let (left, right) = (walked(start, met).fields, walked(other_start, other_met).fields);
    if frames(left) == frames(right) {
        lemma_frames_injective(left, right);
        lemma_walk_fields(start, met);
        lemma_walk_fields(other_start, other_met);
        assert(left[0] == field("domain"@, encode_utf8(domain)));
        assert(right[0] == field("domain"@, encode_utf8(other_domain)));
        assert(vstd::utf8::decode_utf8(encode_utf8(domain)) == domain);
        assert(vstd::utf8::decode_utf8(encode_utf8(other_domain)) == other_domain);
        assert(fields_of_all(hashed(start, met)) =~= left.skip(1));
        assert(fields_of_all(hashed(other_start, other_met)) =~= right.skip(1));
        lemma_hashed_fields_injective(hashed(start, met), hashed(other_start, other_met));
    }
}

/// A place is left out exactly when one of the excluded roots is that place or lies above it, and
/// has been met before exactly when a directory of the same components was.
pub proof fn lemma_places_left_out(path: Seq<u8>, roots: Seq<Seq<u8>>)
    ensures
        is_excluded(path, roots) <==> exists|i: int|
            0 <= i < roots.len() && crate::paths::components(#[trigger] roots[i]).len()
                <= crate::paths::components(path).len() && crate::paths::components(path).take(
                crate::paths::components(roots[i]).len() as int,
            ) == crate::paths::components(roots[i]),
        is_visited(path, roots) <==> exists|i: int|
            0 <= i < roots.len() && crate::paths::components(#[trigger] roots[i])
                == crate::paths::components(path),
{
    let all = crate::paths::components(path);
    assert forall|i: int| 0 <= i < roots.len() implies is_within(path, #[trigger] roots[i]) == (
    crate::paths::components(roots[i]).len() <= all.len() && all.take(
        crate::paths::components(roots[i]).len() as int,
    ) == crate::paths::components(roots[i])) by {
        let base = crate::paths::components(roots[i]);
        if base.is_prefix_of(all) {
            assert(all.take(base.len() as int) =~= base);
        }
    }
}

/// An excluded place adds nothing to what is hashed; a file adds its label and its contents; a
/// directory adds its label, and then its entries are due in the order of their names; a directory
/// that was met before adds that it was, and its entries are not read again.
pub proof fn lemma_what_is_hashed(state: WalkState, met: Met)
    requires
        state.pending.len() > 0,
    ensures
        ({
            let top = state.pending.last();
            let rest = state.pending.drop_last();
            let next = after_meeting(state, met);
            &&& rest.is_prefix_of(next.pending)
            &&& met is Excluded ==> next.fields == state.fields && next.pending == rest
            &&& met matches Met::File { contents } ==> next.pending == rest && next.fields
                == state.fields + seq![
                (Field { label: "file-path"@, value: top.label }),
                (Field { label: "file-content"@, value: contents }),
            ]
            &&& met is DirectoryAgain ==> next.pending == rest && next.fields == state.fields
                + seq![
                (Field { label: "directory"@, value: top.label }),
                (Field { label: "directory-already-visited"@, value: top.label }),
            ]
            &&& met matches Met::Directory { names } ==> {
                &&& next.fields == state.fields + seq![
                    (Field { label: "directory"@, value: top.label }),
                ]
                &&& next.pending.len() == rest.len() + names.len()
                &&& forall|i: int|
                    #![trigger next.pending[i]]
                    rest.len() <= i < next.pending.len() ==> is_entry_below(
                        next.pending[i],
                        top,
                        names,
                    )
            }
        }),
{
    let top = state.pending.last();
    let rest = state.pending.drop_last();
    let next = after_meeting(state, met);
    match met {
        Met::Excluded => {},
        Met::File { contents } => {
            assert(next.fields =~= state.fields + seq![
                (Field { label: "file-path"@, value: top.label }),
                (Field { label: "file-content"@, value: contents }),
            ]);
        },
        Met::DirectoryAgain => {
            assert(next.fields =~= state.fields + seq![
                (Field { label: "directory"@, value: top.label }),
                (Field { label: "directory-already-visited"@, value: top.label }),
            ]);
        },
        Met::Directory { names } => {
            assert(next.fields =~= state.fields + seq![
                (Field { label: "directory"@, value: top.label }),
            ]);
            let sorted = sorted_by(names, byte_string_before());
            crate::order::lemma_sorted_is_permutation(names, byte_string_before());
            let entries = entries_in_order(top, names);
            assert forall|i: int| #![trigger next.pending[i]] rest.len() <= i
                < next.pending.len() implies is_entry_below(next.pending[i], top, names) by {
                broadcast use vstd::seq_lib::group_to_multiset_ensures;

                let at = entries.len() - 1 - (i - rest.len());
                assert(next.pending[i] == entries[at]);
                assert(sorted.contains(sorted[at]));
                assert(sorted.to_multiset().count(sorted[at]) > 0);
                assert(names.contains(sorted[at]));
            }
        },
    }
}

/// Whether something still to be met is an entry of a directory: one of its names, below its label
/// and below its path, and not declared itself.
pub open spec fn is_entry_below(
    entry: PendingView,
    directory: PendingView,
    names: Seq<Seq<u8>>,
) -> bool {
    exists|i: int|
        0 <= i < names.len() && entry.label == joined(directory.label, #[trigger] names[i])
            && entry.path == joined(directory.path, names[i]) && !entry.declared_root
}

} // verus!
