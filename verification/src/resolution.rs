//! Resolution of paths of which a part may not exist yet.
//!
//! Both walks ask their caller to resolve one path after another and decide
//! what the answers mean for the whole path.

use vstd::prelude::*;
use crate::paths::{
    component_spans, components, file_name, file_name_of, is_name, join, joined, parent,
    parent_path, spans, spans_view, DOT, SEPARATOR,
};
use crate::settings::{copy_bytes, optional_bytes};
use crate::tree::byte_strings;

verus! {

/// What is found at a path.
#[derive(Clone, Debug)]
pub enum PathState {
    /// Nothing is there.
    Missing,
    /// A directory.
    Directory,
    /// A regular file.
    File,
    /// Anything else.
    Other,
    /// It could not be inspected.
    Failed {
        /// Rendered cause.
        message: String,
    },
}

/// Where a component-wise resolution stands.
pub struct ProbeView {
    /// Components still to be resolved, in order.
    pub rest: Seq<Seq<u8>>,
    /// What the components so far resolve to.
    pub resolved: Seq<u8>,
    /// How many components at the end of `resolved` do not exist.
    pub missing_depth: nat,
}

/// Go on over every component that can be resolved without asking.
///
/// A name has to be asked for as long as everything before it exists; `..`
/// steps back, also out of what does not exist.
pub open spec fn settled(state: ProbeView) -> ProbeView
    decreases state.rest.len(),
{
    if state.rest.len() == 0 {
        state
    } else {
        let component = state.rest[0];
        let rest = state.rest.drop_first();
        if component == seq![DOT] {
            settled(ProbeView { rest, ..state })
        } else if component == seq![DOT, DOT] {
            settled(
                ProbeView {
                    rest,
                    resolved: match parent_path(state.resolved) {
                        Some(above) => above,
                        None => state.resolved,
                    },
                    missing_depth: if state.missing_depth > 0 {
                        (state.missing_depth - 1) as nat
                    } else {
                        0
                    },
                },
            )
        } else if component == seq![SEPARATOR] {
            settled(ProbeView { rest, resolved: joined(state.resolved, component), ..state })
        } else if state.missing_depth == 0 {
            state
        } else {
            settled(
                ProbeView {
                    rest,
                    resolved: joined(state.resolved, component),
                    missing_depth: state.missing_depth + 1,
                },
            )
        }
    }
}

/// Resolution of a path component by component, through what exists of it.
pub struct PathProbe {
    rest: Vec<Vec<u8>>,
    resolved: Vec<u8>,
    missing_depth: usize,
}

fn split(path: &[u8]) -> (parts: Vec<Vec<u8>>)
    ensures
        byte_strings(parts@) == components(path@).reverse(),
{
    let found = component_spans(path);
    let ghost all = components(path@);
    let mut parts: Vec<Vec<u8>> = Vec::new();
    let mut at: usize = found.len();
    proof {
        crate::paths::lemma_spans(path@);
        assert(all.len() == found@.len());
        assert(byte_strings(parts@) =~= all.skip(at as int).reverse());
    }
    while at > 0
        invariant
            at <= found@.len(),
            spans_view(found@) == spans(path@),
            all == components(path@),
            all.len() == found@.len(),
            byte_strings(parts@) == all.skip(at as int).reverse(),
        decreases at,
    {
        let ghost before = byte_strings(parts@);
        let (start, end) = found[at - 1];
        proof {
            crate::paths::lemma_spans(path@);
            assert(spans_view(found@)[at - 1] == spans(path@)[at - 1]);
        }
        parts.push(copy_bytes(vstd::slice::slice_subrange(path, start, end)));
        proof {
            assert(parts@.last()@ == all[at - 1]);
            assert(all.skip(at - 1) =~= seq![all[at - 1]] + all.skip(at as int));
            assert(byte_strings(parts@) =~= before.push(all[at - 1]));
            assert(byte_strings(parts@) =~= all.skip(at - 1).reverse());
        }
        at = at - 1;
    }
    assert(all.skip(0) =~= all);
    parts
}

impl PathProbe {
    /// Where the resolution stands.
    pub closed spec fn state(&self) -> ProbeView {
        ProbeView {
            rest: byte_strings(self.rest@).reverse(),
            resolved: self.resolved@,
            missing_depth: self.missing_depth as nat,
        }
    }

    /// Whether the resolution can go on without counting too far.
    pub closed spec fn wf(&self) -> bool {
        self.missing_depth + self.rest@.len() < usize::MAX
    }

    /// Start to resolve an absolute path.
    pub fn new(absolute: &[u8]) -> (probe: Self)
        requires
            absolute@.len() < usize::MAX,
        ensures
            probe.wf(),
            probe.state() == settled(
                ProbeView { rest: components(absolute@), resolved: seq![], missing_depth: 0 },
            ),
    {
        let rest = split(absolute);
        let empty: Vec<u8> = Vec::new();
        proof {
            lemma_component_count(absolute@);
            assert(byte_strings(rest@).reverse() =~= components(absolute@));
            assert(empty@ =~= seq![]);
            assert(rest@.len() == byte_strings(rest@).len());
        }
        let mut probe = PathProbe { rest, resolved: empty, missing_depth: 0 };
        probe.settle();
        probe
    }

    fn settle(&mut self)
        requires
            old(self).wf(),
        ensures
            final(self).wf(),
            final(self).state() == settled(old(self).state()),
            final(self).state() == settled(final(self).state()),
    {
        let ghost goal = settled(self.state());
        while self.rest.len() > 0
            invariant_except_break
                self.wf(),
                settled(self.state()) == goal,
            ensures
                self.wf(),
                self.state() == goal,
                settled(self.state()) == goal,
            decreases self.rest@.len(),
        {
            let ghost before = self.state();
            let last = self.rest.len() - 1;
            let component = copy_bytes(self.rest[last].as_slice());
            proof {
                assert(before.rest[0] == component@);
                assert(byte_strings(self.rest@.drop_last()).reverse() =~= before.rest.drop_first());
                if component@.len() == 1 {
                    assert(component@ =~= seq![component@[0]]);
                }
                if component@.len() == 2 {
                    assert(component@ =~= seq![component@[0], component@[1]]);
                }
                assert(seq![DOT, DOT][0] == DOT && seq![DOT, DOT][1] == DOT && seq![DOT, DOT].len()
                    == 2);
                assert(seq![SEPARATOR][0] == SEPARATOR && seq![DOT][0] == DOT);
            }
            if component.len() == 1 && component[0] == DOT {
                self.rest.pop();
            } else if component.len() == 2 && component[0] == DOT && component[1] == DOT {
                self.rest.pop();
                if let Some(above) = parent(self.resolved.as_slice()) {
                    self.resolved = above;
                }
                if self.missing_depth > 0 {
                    self.missing_depth = self.missing_depth - 1;
                }
            } else if component.len() == 1 && component[0] == SEPARATOR {
                self.rest.pop();
                self.resolved = join(self.resolved.as_slice(), component.as_slice());
            } else if self.missing_depth == 0 {
                break;
            } else {
                self.rest.pop();
                self.resolved = join(self.resolved.as_slice(), component.as_slice());
                self.missing_depth = self.missing_depth + 1;
            }
        }
    }

    /// The path to resolve next, or `None` when nothing is left to ask.
    pub fn next(&self) -> (candidate: Option<Vec<u8>>)
        ensures
            optional_bytes(candidate) == if self.state().rest.len() == 0 {
                None
            } else {
                Some(joined(self.state().resolved, self.state().rest[0]))
            },
    {
        if self.rest.len() == 0 {
            None
        } else {
            let last = self.rest.len() - 1;
            assert(self.state().rest[0] == self.rest@[last as int]@);
            Some(join(self.resolved.as_slice(), self.rest[last].as_slice()))
        }
    }

    /// The candidate exists under this canonical path.
    pub fn found(&mut self, canonical: Vec<u8>)
        requires
            old(self).wf(),
            old(self).state().rest.len() > 0,
        ensures
            final(self).wf(),
            final(self).state() == settled(
                ProbeView {
                    rest: old(self).state().rest.drop_first(),
                    resolved: canonical@,
                    missing_depth: old(self).state().missing_depth,
                },
            ),
    {
        let ghost before = self.state();
        self.rest.pop();
        assert(byte_strings(self.rest@).reverse() =~= before.rest.drop_first());
        self.resolved = canonical;
        self.settle();
    }

    /// The candidate does not exist.
    pub fn missing(&mut self)
        requires
            old(self).wf(),
            old(self).state().rest.len() > 0,
        ensures
            final(self).wf(),
            final(self).state() == settled(
                ProbeView {
                    rest: old(self).state().rest.drop_first(),
                    resolved: joined(old(self).state().resolved, old(self).state().rest[0]),
                    missing_depth: 1,
                },
            ),
    {
        let ghost before = self.state();
        let last = self.rest.len() - 1;
        assert(before.rest[0] == self.rest@[last as int]@);
        self.resolved = join(self.resolved.as_slice(), self.rest[last].as_slice());
        self.rest.pop();
        assert(byte_strings(self.rest@).reverse() =~= before.rest.drop_first());
        self.missing_depth = 1;
        self.settle();
    }

    /// The resolved path, once nothing is left to ask.
    pub fn finish(self) -> (path: Vec<u8>)
        requires
            self.state().rest.len() == 0,
        ensures
            path@ == self.state().resolved,
    {
        self.resolved
    }
}

proof fn lemma_component_count_from(path: Seq<u8>, from: int)
    requires
        0 <= from <= path.len(),
    ensures
        crate::paths::spans_from(path, from).len() <= path.len() - from,
    decreases path.len() - from,
{
    if from < path.len() {
        if path[from] == SEPARATOR {
            lemma_component_count_from(path, from + 1);
        } else {
            let end = crate::paths::segment_end(path, from);
            crate::paths::lemma_segment_end(path, from);
            lemma_component_count_from(path, end);
        }
    }
}

/// A path has at most as many components as bytes.
pub proof fn lemma_component_count(path: Seq<u8>)
    ensures
        components(path).len() <= path.len(),
{
    if crate::paths::is_absolute_path(path) {
        lemma_component_count_from(path, 1);
    } else {
        lemma_component_count_from(path, 0);
    }
}

/// Once a component is missing, the names behind it are taken as they are written.
pub proof fn lemma_missing_tail_is_literal(resolved: Seq<u8>, name: Seq<u8>, depth: nat)
    requires
        is_name(name),
        depth > 0,
    ensures
        settled(ProbeView { rest: seq![name], resolved, missing_depth: depth }) == (ProbeView {
            rest: seq![],
            resolved: joined(resolved, name),
            missing_depth: depth + 1,
        }),
{
    assert(seq![name].drop_first() =~= seq![]);
    reveal_with_fuel(settled, 2);
}

/// Resolution of a path through its nearest ancestor that exists.
pub struct AncestorProbe {
    existing: Vec<u8>,
    unresolved: Vec<Vec<u8>>,
}

/// `base` with each of `names` joined to it, the last one first.
pub open spec fn rejoined(base: Seq<u8>, names: Seq<Seq<u8>>) -> Seq<u8>
    decreases names.len(),
{
    if names.len() == 0 {
        base
    } else {
        rejoined(joined(base, names.last()), names.drop_last())
    }
}

impl AncestorProbe {
    /// The ancestor to resolve next.
    pub closed spec fn existing(&self) -> Seq<u8> {
        self.existing@
    }

    /// Names below that ancestor, innermost first.
    pub closed spec fn unresolved(&self) -> Seq<Seq<u8>> {
        byte_strings(self.unresolved@)
    }

    /// Start with the path itself.
    pub fn new(absolute: &[u8]) -> (probe: Self)
        ensures
            probe.existing() == absolute@,
            probe.unresolved() == Seq::<Seq<u8>>::empty(),
    {
        let unresolved: Vec<Vec<u8>> = Vec::new();
        assert(byte_strings(unresolved@) =~= Seq::<Seq<u8>>::empty());
        AncestorProbe { existing: copy_bytes(absolute), unresolved }
    }

    /// The ancestor to resolve next.
    pub fn candidate(&self) -> (path: &[u8])
        ensures
            path@ == self.existing(),
    {
        self.existing.as_slice()
    }

    /// The ancestor does not exist: go on with its parent. Returns whether there is one.
    pub fn missing(&mut self) -> (more: bool)
        ensures
            more == (file_name_of(old(self).existing()) is Some && parent_path(
                old(self).existing(),
            ) is Some),
            more ==> {
                &&& final(self).existing() == parent_path(old(self).existing())->0
                &&& final(self).unresolved() == old(self).unresolved().push(
                    file_name_of(old(self).existing())->0,
                )
            },
    {
        let name = match file_name(self.existing.as_slice()) {
            Some(name) => name,
            None => return false,
        };
        let above = match parent(self.existing.as_slice()) {
            Some(above) => above,
            None => return false,
        };
        let ghost before = byte_strings(self.unresolved@);
        self.unresolved.push(name);
        assert(byte_strings(self.unresolved@) =~= before.push(name@));
        self.existing = above;
        true
    }

    /// The whole path, now that the ancestor exists under `canonical`.
    pub fn found(self, canonical: Vec<u8>) -> (path: Vec<u8>)
        ensures
            path@ == rejoined(canonical@, self.unresolved()),
    {
        let mut names = self.unresolved;
        let mut path = canonical;
        let ghost goal = rejoined(canonical@, byte_strings(names@));
        while names.len() > 0
            invariant
                rejoined(path@, byte_strings(names@)) == goal,
            decreases names.len(),
        {
            let ghost before = byte_strings(names@);
            if let Some(name) = names.pop() {
                assert(before.last() == name@);
                assert(byte_strings(names@) =~= before.drop_last());
                path = join(path.as_slice(), name.as_slice());
            }
        }
        path
    }
}

/// A dot stays where it is, two dots go up by one, a separator starts at the root; and a name is
/// left to be asked for as long as nothing is missing.
pub proof fn lemma_components_without_asking(
    rest: Seq<Seq<u8>>,
    resolved: Seq<u8>,
    missing_depth: nat,
    name: Seq<u8>,
)
    ensures
        settled(ProbeView { rest: seq![seq![46u8]] + rest, resolved, missing_depth }) == settled(
            ProbeView { rest, resolved, missing_depth },
        ),
        parent_path(resolved) matches Some(above) ==> settled(
            ProbeView { rest: seq![seq![46u8, 46u8]] + rest, resolved, missing_depth },
        ) == settled(
            ProbeView {
                rest,
                resolved: above,
                missing_depth: if missing_depth > 0 {
                    (missing_depth - 1) as nat
                } else {
                    0
                },
            },
        ),
        parent_path(resolved) is None ==> settled(
            ProbeView { rest: seq![seq![46u8, 46u8]] + rest, resolved, missing_depth },
        ).rest == settled(
            ProbeView {
                rest,
                resolved,
                missing_depth: if missing_depth > 0 {
                    (missing_depth - 1) as nat
                } else {
                    0
                },
            },
        ).rest,
        settled(ProbeView { rest: seq![seq![47u8]] + rest, resolved, missing_depth }) == settled(
            ProbeView { rest, resolved: seq![47u8], missing_depth },
        ),
        name != seq![46u8] && name != seq![46u8, 46u8] && name != seq![47u8] ==> settled(
            ProbeView { rest: seq![name] + rest, resolved, missing_depth: 0 },
        ) == (ProbeView { rest: seq![name] + rest, resolved, missing_depth: 0 }),
        name != seq![46u8] && name != seq![46u8, 46u8] && name != seq![47u8] && missing_depth > 0
            ==> settled(ProbeView { rest: seq![name] + rest, resolved, missing_depth }) == settled(
            ProbeView { rest, resolved: joined(resolved, name), missing_depth: missing_depth + 1 },
        ),
{
    assert((seq![seq![46u8]] + rest).drop_first() =~= rest);
    assert((seq![seq![46u8, 46u8]] + rest).drop_first() =~= rest);
    assert((seq![seq![47u8]] + rest).drop_first() =~= rest);
    assert((seq![name] + rest).drop_first() =~= rest);
    assert(seq![46u8].len() != seq![46u8, 46u8].len());
    assert(seq![47u8].len() != seq![46u8, 46u8].len());
    assert(seq![47u8][0] != seq![46u8][0]);
}

} // verus!
