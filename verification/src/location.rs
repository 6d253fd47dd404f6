//! De-duplicated source locations.
//!
//! A `Location` is a non-empty ordered stack of terminals; each terminal is
//! one source position, optionally annotated with a display file, a line and
//! a module/name pair. Inlining concatenates locations, so a location records
//! the call stack a piece of code was inlined through.

use vstd::prelude::*;

use crate::entity::{Location, LocationTerminal};
use crate::ident::SourceSpan;

verus! {

/// One stack entry of a location.
#[derive(Clone, Debug)]
pub struct LocationTerminalData {
    /// Path to display for the origin file.
    pub file: Option<String>,
    /// Line number in the origin file.
    pub line: Option<u32>,
    /// Names of the module and the function or stack entity.
    pub names: Option<(String, String)>,
    /// Span in the file this was read from.
    pub span: SourceSpan,
}

/// A location: the ordered list of its terminals, bottom first.
#[derive(Clone, Debug)]
pub struct LocationData {
    pub terminals: Vec<LocationTerminal>,
}

/// The arena of locations and terminals of one function.
pub struct LocationContainer {
    pub terminals: Vec<LocationTerminalData>,
    pub locations: Vec<LocationData>,
}

impl LocationContainer {
    pub open spec fn n_terminals(self) -> int {
        self.terminals@.len() as int
    }

    pub open spec fn n_locations(self) -> int {
        self.locations@.len() as int
    }

    pub open spec fn terminal_data(self, t: LocationTerminal) -> LocationTerminalData {
        self.terminals@[t.0 as int]
    }

    /// The terminal handles of a location, bottom first.
    pub open spec fn terminals_of(self, loc: Location) -> Seq<LocationTerminal> {
        self.locations@[loc.0 as int].terminals@
    }

    /// The source spans of a location's terminals, bottom first.
    pub open spec fn spans_of(self, loc: Location) -> Seq<SourceSpan> {
        self.terminals_of(loc).map_values(|t: LocationTerminal| self.terminal_data(t).span)
    }

    pub open spec fn is_valid(self, loc: Location) -> bool {
        loc.0 < self.n_locations()
    }

    pub open spec fn is_valid_terminal(self, t: LocationTerminal) -> bool {
        t.0 < self.n_terminals()
    }

    /// Every location's terminals point into the terminal arena.
    pub open spec fn wf(self) -> bool {
        forall|i: int, j: int|
            0 <= i < self.n_locations() && 0 <= j < self.locations@[i].terminals@.len()
                ==> (#[trigger] self.locations@[i].terminals@[j]).0 < self.n_terminals()
    }

    /// The container only grew: every existing location and terminal is
    /// unchanged.
    pub open spec fn extends(self, other: LocationContainer) -> bool {
        &&& other.n_locations() <= self.n_locations()
        &&& other.n_terminals() <= self.n_terminals()
        &&& forall|i: int|
            0 <= i < other.n_locations() ==> #[trigger] self.locations@[i].terminals@
                == other.locations@[i].terminals@
        &&& forall|i: int|
            0 <= i < other.n_terminals() ==> #[trigger] self.terminals@[i]
                == other.terminals@[i]
    }

    pub fn new() -> (r: LocationContainer)
        ensures
            r.wf(),
            r.n_locations() == 0,
            r.n_terminals() == 0,
    {
        LocationContainer { terminals: Vec::new(), locations: Vec::new() }
    }

    /// The original source spans of all terminals of `loc`, bottom first.
    pub fn lookup(&self, loc: Location) -> (r: Vec<SourceSpan>)
        requires
            self.wf(),
            self.is_valid(loc),
        ensures
            r@ == self.spans_of(loc),
    {
        let data = &self.locations[loc.0];
        let n = data.terminals.len();
        let mut out: Vec<SourceSpan> = Vec::new();
        let mut i: usize = 0;
        while i < n
            invariant
                self.wf(),
                self.is_valid(loc),
                *data == self.locations@[loc.0 as int],
                n == data.terminals@.len(),
                i <= n,
                out@.len() == i,
                forall|j: int|
                    0 <= j < i ==> out@[j] == self.terminal_data(data.terminals@[j]).span,
            decreases n - i,
        {
            let t = data.terminals[i];
            out.push(self.terminals[t.0].span);
            i += 1;
        }
        proof {
            assert(out@ =~= self.spans_of(loc));
        }
        out
    }

    /// Some location already carries exactly this terminal list.
    pub open spec fn has_terminals(self, ts: Seq<LocationTerminal>) -> bool {
        exists|i: int| 0 <= i < self.n_locations() && (#[trigger] self.locations@[i]).terminals@
            == ts
    }

    /// Intern a terminal list: locations are de-duplicated, so equal lists
    /// share one handle.
    fn intern_terminals(&mut self, terms: Vec<LocationTerminal>) -> (r: Location)
        requires
            old(self).wf(),
            forall|j: int|
                0 <= j < terms@.len() ==> (#[trigger] terms@[j]).0 < old(self).n_terminals(),
        ensures
            final(self).wf(),
            final(self).extends(*old(self)),
            final(self).is_valid(r),
            final(self).terminals_of(r) == terms@,
            final(self).n_terminals() == old(self).n_terminals(),
            old(self).has_terminals(terms@) ==> *final(self) == *old(self),
            !old(self).has_terminals(terms@) ==> final(self).n_locations() == old(
                self,
            ).n_locations() + 1,
    {
        let n = self.locations.len();
        let mut i: usize = 0;
        while i < n
            invariant
                *self == *old(self),
                self.wf(),
                n == self.n_locations(),
                i <= n,
                forall|j: int| 0 <= j < i ==> (#[trigger] self.locations@[j]).terminals@ != terms@,
            decreases n - i,
        {
            if term_vec_eq(&self.locations[i].terminals, &terms) {
                return Location(i);
            }
            i += 1;
        }
        let r = Location(n);
        self.locations.push(LocationData { terminals: terms });
        r
    }

    /// The location with no terminals at all.
    pub fn location_empty(&mut self) -> (r: Location)
        requires
            old(self).wf(),
        ensures
            final(self).wf(),
            final(self).extends(*old(self)),
            final(self).is_valid(r),
            final(self).terminals_of(r).len() == 0,
            final(self).n_terminals() == old(self).n_terminals(),
            old(self).has_terminals(Seq::<LocationTerminal>::empty()) ==> *final(self) == *old(
                self,
            ),
    {
        let terms: Vec<LocationTerminal> = Vec::new();
        proof {
            assert(terms@ =~= Seq::<LocationTerminal>::empty());
        }
        self.intern_terminals(terms)
    }

    /// A location with one terminal that carries no source information.
    pub fn location_unknown(&mut self) -> (r: Location)
        requires
            old(self).wf(),
        ensures
            final(self).wf(),
            final(self).extends(*old(self)),
            final(self).is_valid(r),
            final(self).terminals_of(r).len() == 1,
            final(self).terminal_data(final(self).terminals_of(r)[0]).span
                == SourceSpan::spec_unknown(),
            final(self).terminal_data(final(self).terminals_of(r)[0]).file is None,
            final(self).terminal_data(final(self).terminals_of(r)[0]).line is None,
            final(self).terminal_data(final(self).terminals_of(r)[0]).names is None,
    {
        self.location(None, None, None, SourceSpan::unknown())
    }

    /// A location with exactly one terminal built from the given data.
    pub fn location(
        &mut self,
        file: Option<String>,
        line: Option<u32>,
        names: Option<(String, String)>,
        span: SourceSpan,
    ) -> (r: Location)
        requires
            old(self).wf(),
        ensures
            final(self).wf(),
            final(self).extends(*old(self)),
            final(self).is_valid(r),
            final(self).terminals_of(r).len() == 1,
            final(self).terminal_data(final(self).terminals_of(r)[0]).span == span,
            final(self).terminal_data(final(self).terminals_of(r)[0]).file == file,
            final(self).terminal_data(final(self).terminals_of(r)[0]).line == line,
            final(self).terminal_data(final(self).terminals_of(r)[0]).names == names,
    {
        let t = LocationTerminal(self.terminals.len());
        self.terminals.push(LocationTerminalData { file, line, names, span });
        let mut terms: Vec<LocationTerminal> = Vec::new();
        terms.push(t);
        self.intern_terminals(terms)
    }

    /// A location for a span whose file and line were already resolved by
    /// the code map collaborator.
    pub fn from_bytespan(
        &mut self,
        file: Option<String>,
        line: Option<u32>,
        span: SourceSpan,
        names: Option<(String, String)>,
    ) -> (r: Location)
        requires
            old(self).wf(),
        ensures
            final(self).wf(),
            final(self).extends(*old(self)),
            final(self).is_valid(r),
            final(self).terminals_of(r).len() == 1,
            final(self).terminal_data(final(self).terminals_of(r)[0]).span == span,
    {
        self.location(file, line, names, span)
    }

    /// The location whose terminals are those of `bottom` followed by those
    /// of `top`. Inlining uses this to push the caller's frame on top of the
    /// callee's.
    pub fn concat_locations(&mut self, bottom: Location, top: Location) -> (r: Location)
        requires
            old(self).wf(),
            old(self).is_valid(bottom),
            old(self).is_valid(top),
        ensures
            final(self).wf(),
            final(self).extends(*old(self)),
            final(self).is_valid(r),
            final(self).terminals_of(r) == old(self).terminals_of(bottom)
                + old(self).terminals_of(top),
            final(self).n_terminals() == old(self).n_terminals(),
            old(self).has_terminals(
                old(self).terminals_of(bottom) + old(self).terminals_of(top),
            ) ==> *final(self) == *old(self),
    {
        let mut terms: Vec<LocationTerminal> = Vec::new();
        let nb = self.locations[bottom.0].terminals.len();
        let mut i: usize = 0;
        while i < nb
            invariant
                self.wf(),
                self.is_valid(bottom),
                nb == self.terminals_of(bottom).len(),
                i <= nb,
                terms@ == self.terminals_of(bottom).take(i as int),
            decreases nb - i,
        {
            let t = self.locations[bottom.0].terminals[i];
            terms.push(t);
            proof {
                assert(terms@ =~= self.terminals_of(bottom).take(i as int + 1));
            }
            i += 1;
        }
        let nt = self.locations[top.0].terminals.len();
        let mut j: usize = 0;
        while j < nt
            invariant
                self.wf(),
                self.is_valid(bottom),
                self.is_valid(top),
                nb == self.terminals_of(bottom).len(),
                nt == self.terminals_of(top).len(),
                j <= nt,
                terms@ == self.terminals_of(bottom) + self.terminals_of(top).take(j as int),
            decreases nt - j,
        {
            let t = self.locations[top.0].terminals[j];
            terms.push(t);
            proof {
                assert(terms@ =~= self.terminals_of(bottom) + self.terminals_of(top).take(j as int + 1));
            }
            j += 1;
        }
        proof {
            assert(self.terminals_of(bottom).take(nb as int) =~= self.terminals_of(bottom));
            assert(self.terminals_of(top).take(nt as int) =~= self.terminals_of(top));
        }
        self.intern_terminals(terms)
    }
}

/// Extension of location containers is transitive.
pub proof fn lemma_locations_extends_trans(
    a: LocationContainer,
    b: LocationContainer,
    c: LocationContainer,
)
    requires
        b.extends(a),
        c.extends(b),
    ensures
        c.extends(a),
{
    assert forall|i: int|
        0 <= i < a.n_locations() implies #[trigger] c.locations@[i].terminals@
        == a.locations@[i].terminals@ by {
        assert(b.locations@[i].terminals@ == a.locations@[i].terminals@);
    }
    assert forall|i: int| 0 <= i < a.n_terminals() implies #[trigger] c.terminals@[i]
        == a.terminals@[i] by {
        assert(b.terminals@[i] == a.terminals@[i]);
    }
}

/// Concatenation stacks source spans: the spans of `concat_locations(b, t)`
/// are the spans of `b` followed by the spans of `t`. Inlined call stacks
/// therefore accumulate bottom-up.
pub proof fn lemma_concat_spans(
    pre: LocationContainer,
    post: LocationContainer,
    bottom: Location,
    top: Location,
    r: Location,
)
    requires
        pre.wf(),
        pre.is_valid(bottom),
        pre.is_valid(top),
        post.wf(),
        post.extends(pre),
        post.is_valid(r),
        post.n_terminals() == pre.n_terminals(),
        post.terminals_of(r) == pre.terminals_of(bottom) + pre.terminals_of(top),
    ensures
        post.spans_of(r) == pre.spans_of(bottom) + pre.spans_of(top),
{
    let nb = pre.terminals_of(bottom).len() as int;
    let nt = pre.terminals_of(top).len() as int;
    assert forall|i: int| 0 <= i < nb + nt implies post.spans_of(r)[i] == (pre.spans_of(bottom)
        + pre.spans_of(top))[i] by {
        let t = post.terminals_of(r)[i];
        if i < nb {
            assert(t == pre.terminals_of(bottom)[i]);
            assert(t.0 < pre.n_terminals());
            assert(post.terminal_data(t) == pre.terminal_data(t));
        } else {
            assert(t == pre.terminals_of(top)[i - nb]);
            assert(t.0 < pre.n_terminals());
            assert(post.terminal_data(t) == pre.terminal_data(t));
        }
    }
    assert(post.spans_of(r) =~= pre.spans_of(bottom) + pre.spans_of(top));
}

/// Element-wise comparison of two terminal handle lists.
fn term_vec_eq(a: &Vec<LocationTerminal>, b: &Vec<LocationTerminal>) -> (r: bool)
    ensures
        r == (a@ == b@),
{
    if a.len() != b.len() {
        proof {
            assert(a@.len() != b@.len());
        }
        return false;
    }
    let n = a.len();
    let mut i: usize = 0;
    while i < n
        invariant
            n == a@.len(),
            n == b@.len(),
            i <= n,
            forall|j: int| 0 <= j < i ==> a@[j] == b@[j],
        decreases n - i,
    {
        if a[i].0 != b[i].0 {
            return false;
        }
        i += 1;
    }
    proof {
        assert(a@ =~= b@);
    }
    true
}

} // verus!
