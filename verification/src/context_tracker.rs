//! Bookkeeping for several GL contexts of which at most one is current.
//!
//! The contexts themselves are opaque here: `P` is a context in the
//! "possibly current" state and `N` one in the "not current" state. Switching a
//! context between the two states is work of the windowing library, done by the
//! caller; the tracker decides which switch comes next and records the result.
use vstd::prelude::*;

verus! {

/// Identifier of a context held by a [`ContextTracker`].
pub type ContextId = usize;

/// A GL context that is either headless or backed by a window.
#[derive(Debug, PartialEq, Eq)]
pub enum ContextWrapper<H, W> {
    Headless(H),
    Windowed(W),
}

impl<H, W> ContextWrapper<H, W> {
    /// The headless context held here.
    pub fn headless(&mut self) -> (ctx: &mut H)
        requires
            *old(self) is Headless,
        ensures
            *ctx == old(self)->Headless_0,
            *final(self) == ContextWrapper::<H, W>::Headless(*final(ctx)),
    {
        match self {
            ContextWrapper::Headless(ctx) => ctx,
            ContextWrapper::Windowed(_) => vstd::pervasive::unreached(),
        }
    }

    /// The windowed context held here.
    pub fn windowed(&mut self) -> (ctx: &mut W)
        requires
            *old(self) is Windowed,
        ensures
            *ctx == old(self)->Windowed_0,
            *final(self) == ContextWrapper::<H, W>::Windowed(*final(ctx)),
    {
        match self {
            ContextWrapper::Windowed(ctx) => ctx,
            ContextWrapper::Headless(_) => vstd::pervasive::unreached(),
        }
    }
}

/// What `map` gives back when it ran `f` on the headless context `h` and `f`
/// returned `r`.
pub open spec fn headless_result<H, W, H2, W2, E>(r: Result<H2, (H, E)>) -> Result<
    ContextWrapper<H2, W2>,
    (ContextWrapper<H, W>, E),
> {
    match r {
        Ok(c) => Ok(ContextWrapper::Headless(c)),
        Err((c, e)) => Err((ContextWrapper::Headless(c), e)),
    }
}

/// What `map` gives back when it ran `f` on the windowed context and `f`
/// returned `r`.
pub open spec fn windowed_result<H, W, H2, W2, E>(r: Result<W2, (W, E)>) -> Result<
    ContextWrapper<H2, W2>,
    (ContextWrapper<H, W>, E),
> {
    match r {
        Ok(c) => Ok(ContextWrapper::Windowed(c)),
        Err((c, e)) => Err((ContextWrapper::Windowed(c), e)),
    }
}

impl<H, W> ContextWrapper<H, W> {
    /// Runs `fh` on a headless context and `fw` on a windowed one, and wraps
    /// what comes back, on success and on failure, in the same variant.
    pub fn map<H2, W2, E, FH, FW>(self, fh: FH, fw: FW) -> (res: Result<
        ContextWrapper<H2, W2>,
        (ContextWrapper<H, W>, E),
    >) where
        FH: FnOnce(H) -> Result<H2, (H, E)>,
        FW: FnOnce(W) -> Result<W2, (W, E)>,

        requires
            self matches ContextWrapper::Headless(h) ==> fh.requires((h,)),
            self matches ContextWrapper::Windowed(w) ==> fw.requires((w,)),
        ensures
            self matches ContextWrapper::Headless(h) ==> exists|r: Result<H2, (H, E)>|
                #[trigger] fh.ensures((h,), r) && res == headless_result::<H, W, H2, W2, E>(r),
            self matches ContextWrapper::Windowed(w) ==> exists|r: Result<W2, (W, E)>|
                #[trigger] fw.ensures((w,), r) && res == windowed_result::<H, W, H2, W2, E>(r),
    {
        match self {
            ContextWrapper::Headless(ctx) => {
                let r = fh(ctx);
                match r {
                    Ok(c) => Ok(ContextWrapper::Headless(c)),
                    Err((c, e)) => Err((ContextWrapper::Headless(c), e)),
                }
            },
            ContextWrapper::Windowed(ctx) => {
                let r = fw(ctx);
                match r {
                    Ok(c) => Ok(ContextWrapper::Windowed(c)),
                    Err((c, e)) => Err((ContextWrapper::Windowed(c), e)),
                }
            },
        }
    }
}

/// A context together with the state it is in.
#[derive(Debug, PartialEq, Eq)]
pub enum ContextCurrentWrapper<P, N> {
    PossiblyCurrent(P),
    NotCurrent(N),
}

/// What `map_possibly` gives back when `f` returned `r`.
pub open spec fn demoted_result<P, N, E>(r: Result<N, (P, E)>) -> Result<
    ContextCurrentWrapper<P, N>,
    (ContextCurrentWrapper<P, N>, E),
> {
    match r {
        Ok(n) => Ok(ContextCurrentWrapper::NotCurrent(n)),
        Err((q, e)) => Err((ContextCurrentWrapper::PossiblyCurrent(q), e)),
    }
}

/// What `map_not` gives back when `f` returned `r`.
pub open spec fn promoted_result<P, N, E>(r: Result<P, (N, E)>) -> Result<
    ContextCurrentWrapper<P, N>,
    (ContextCurrentWrapper<P, N>, E),
> {
    match r {
        Ok(p) => Ok(ContextCurrentWrapper::PossiblyCurrent(p)),
        Err((q, e)) => Err((ContextCurrentWrapper::NotCurrent(q), e)),
    }
}

impl<P, N> ContextCurrentWrapper<P, N> {
    /// Leaves a context that is not current as it is; runs `f` on a possibly
    /// current one, which ends not current on success and stays possibly
    /// current on failure.
    pub fn map_possibly<E, F>(self, f: F) -> (res: Result<Self, (Self, E)>) where
        F: FnOnce(P) -> Result<N, (P, E)>,

        requires
            self matches ContextCurrentWrapper::PossiblyCurrent(p) ==> f.requires((p,)),
        ensures
            self is NotCurrent ==> res == Ok::<Self, (Self, E)>(self),
            self matches ContextCurrentWrapper::PossiblyCurrent(p) ==> exists|r: Result<N, (P, E)>|
                #[trigger] f.ensures((p,), r) && res == demoted_result(r),
    {
        match self {
            ContextCurrentWrapper::NotCurrent(_) => Ok(self),
            ContextCurrentWrapper::PossiblyCurrent(ctx) => {
                let r = f(ctx);
                match r {
                    Ok(n) => Ok(ContextCurrentWrapper::<P, N>::NotCurrent(n)),
                    Err((q, e)) => Err((ContextCurrentWrapper::PossiblyCurrent(q), e)),
                }
            },
        }
    }

    /// Leaves a possibly current context as it is; runs `f` on one that is
    /// not current, which ends possibly current on success and stays not
    /// current on failure.
    pub fn map_not<E, F>(self, f: F) -> (res: Result<Self, (Self, E)>) where
        F: FnOnce(N) -> Result<P, (N, E)>,

        requires
            self matches ContextCurrentWrapper::NotCurrent(n) ==> f.requires((n,)),
        ensures
            self is PossiblyCurrent ==> res == Ok::<Self, (Self, E)>(self),
            self matches ContextCurrentWrapper::NotCurrent(n) ==> exists|r: Result<P, (N, E)>|
                #[trigger] f.ensures((n,), r) && res == promoted_result(r),
    {
        match self {
            ContextCurrentWrapper::PossiblyCurrent(_) => Ok(self),
            ContextCurrentWrapper::NotCurrent(ctx) => {
                let r = f(ctx);
                match r {
                    Ok(p) => Ok(ContextCurrentWrapper::<P, N>::PossiblyCurrent(p)),
                    Err((q, e)) => Err((ContextCurrentWrapper::NotCurrent(q), e)),
                }
            },
        }
    }
}

/// One entry of a tracker: the identifier and the context, absent while the
/// caller holds it to switch its state.
pub type Slot<P, N> = (ContextId, Option<ContextCurrentWrapper<P, N>>);

/// How a request to the tracker ended.
#[derive(Debug, PartialEq, Eq)]
pub enum Outcome<E> {
    /// The context was inserted under this identifier.
    Inserted(ContextId),
    /// This context is now the current one.
    Current(ContextId),
    /// The context could not be made current; no context is current now.
    Failed(E),
    /// The context could not be made current, and the one that was current
    /// before could not be made not current either. The tracker accepts no
    /// further request.
    Unrecoverable(E, E),
}

/// What the caller has to do next for the request in progress.
#[derive(Debug, PartialEq, Eq)]
pub enum Action<P, N, E> {
    /// Nothing: the request is over.
    Done(Outcome<E>),
    /// Make this context current and report the result with
    /// [`ContextTracker::made_current`].
    MakeCurrent(N),
    /// Make this context not current and report the result with
    /// [`ContextTracker::made_not_current`].
    MakeNotCurrent(P),
    /// Mark this context as not current (no GL call) and hand it back with
    /// [`ContextTracker::treated_as_not_current`].
    TreatAsNotCurrent(P),
}

/// The request the tracker is in the middle of.
#[allow(inconsistent_fields)]
#[derive(Debug, PartialEq, Eq)]
pub enum Phase<E> {
    /// No request in progress.
    Idle,
    /// The former current context `target` is out to be marked not current;
    /// afterwards the request ends with `outcome`.
    Demoting { target: ContextId, outcome: Outcome<E> },
    /// `target` is out to be made current; `previous` was current before.
    Activating { target: ContextId, previous: Option<ContextId> },
    /// Making a context current failed with `error`; `previous`, current
    /// before, is out to be made not current.
    RollingBack { previous: ContextId, error: E },
    /// A roll-back failed; `stuck` still holds a possibly current context.
    Broken { stuck: ContextId },
}

/// Identifiers strictly increase along the sequence.
pub open spec fn ids_increasing<X>(s: Seq<(ContextId, X)>) -> bool {
    forall|i: int, j: int| 0 <= i < j < s.len() ==> #[trigger] s[i].0 < #[trigger] s[j].0
}

/// Some entry of `s` has identifier `id`.
pub open spec fn has_id<X>(s: Seq<(ContextId, X)>, id: ContextId) -> bool {
    exists|i: int| 0 <= i < s.len() && #[trigger] s[i].0 == id
}

/// The position of the entry with identifier `id`.
pub open spec fn index_of<X>(s: Seq<(ContextId, X)>, id: ContextId) -> int {
    choose|i: int| 0 <= i < s.len() && #[trigger] s[i].0 == id
}

/// The context held in the entry of `s` with identifier `id`.
pub open spec fn slot_of<P, N>(s: Seq<Slot<P, N>>, id: ContextId) -> Option<ContextCurrentWrapper<P, N>> {
    s[index_of(s, id)].1
}

/// `s` with the context of the entry with identifier `id` replaced by `w`.
pub open spec fn set_slot<P, N>(
    s: Seq<Slot<P, N>>,
    id: ContextId,
    w: Option<ContextCurrentWrapper<P, N>>,
) -> Seq<Slot<P, N>> {
    s.update(index_of(s, id), (id, w))
}

/// In increasing sequences each identifier sits at one position.
pub proof fn lemma_index_of<X>(s: Seq<(ContextId, X)>, id: ContextId, i: int)
    requires
        ids_increasing(s),
        0 <= i < s.len(),
        s[i].0 == id,
    ensures
        has_id(s, id),
        index_of(s, id) == i,
{
    assert(has_id(s, id));
    let k = index_of(s, id);
    if k < i {
        assert(s[k].0 < s[i].0);
    } else if i < k {
        assert(s[i].0 < s[k].0);
    }
}

/// Replacing one context keeps the identifiers and touches only that entry.
pub proof fn lemma_set_slot<P, N>(s: Seq<Slot<P, N>>, id: ContextId, w: Option<ContextCurrentWrapper<P, N>>)
    requires
        ids_increasing(s),
        has_id(s, id),
    ensures
        ({
            let t = set_slot(s, id, w);
            &&& t.len() == s.len()
            &&& forall|i: int| 0 <= i < s.len() ==> #[trigger] t[i].0 == s[i].0
            &&& forall|i: int| 0 <= i < s.len() && i != index_of(s, id) ==> #[trigger] t[i] == s[i]
            &&& t[index_of(s, id)] == (id, w)
            &&& ids_increasing(t)
            &&& forall|x: ContextId| has_id(s, x) ==> #[trigger] has_id(t, x) && index_of(t, x) == index_of(s, x)
            &&& forall|x: ContextId| #[trigger] has_id(t, x) ==> has_id(s, x)
            &&& slot_of(t, id) == w
            &&& forall|x: ContextId| has_id(s, x) && x != id ==> #[trigger] slot_of(t, x) == slot_of(s, x)
        }),
{
    let t = set_slot(s, id, w);
    let k = index_of(s, id);
    assert(0 <= k < s.len() && s[k].0 == id);
    assert forall|i: int| 0 <= i < s.len() implies #[trigger] t[i].0 == s[i].0 by {}
    assert forall|x: ContextId| has_id(s, x) implies #[trigger] has_id(t, x) && index_of(t, x) == index_of(s, x) by {
        let j = index_of(s, x);
        assert(t[j].0 == x);
        lemma_index_of(t, x, j);
    }
    lemma_index_of(t, id, k);
    assert forall|x: ContextId| #[trigger] has_id(t, x) implies has_id(s, x) by {
        let j = index_of(t, x);
        assert(s[j].0 == x);
    }
    assert forall|x: ContextId| has_id(s, x) && x != id implies #[trigger] slot_of(t, x) == slot_of(s, x) by {
        let j = index_of(s, x);
        assert(t[j].0 == x);
        lemma_index_of(t, x, j);
    }
}

/// The entry whose context the caller holds during `phase`, if any.
pub open spec fn lent_of<E>(phase: Phase<E>) -> Option<ContextId> {
    match phase {
        Phase::Idle => None,
        Phase::Demoting { target, .. } => Some(target),
        Phase::Activating { target, .. } => Some(target),
        Phase::RollingBack { previous, .. } => Some(previous),
        Phase::Broken { .. } => None,
    }
}

/// The entry that holds a possibly current context during `phase`, if any.
pub open spec fn holder_of<E>(phase: Phase<E>, current: Option<ContextId>) -> Option<ContextId> {
    match phase {
        Phase::Idle => current,
        Phase::Demoting { .. } => current,
        Phase::Activating { previous, .. } => previous,
        Phase::RollingBack { .. } => None,
        Phase::Broken { stuck } => Some(stuck),
    }
}

/// Entry `i` holds its context unless lent out, and the context is possibly
/// current exactly at the holder.
pub open spec fn slot_ok<P, N, E>(
    s: Seq<Slot<P, N>>,
    i: int,
    current: Option<ContextId>,
    phase: Phase<E>,
) -> bool {
    let (id, slot) = s[i];
    if lent_of(phase) == Some(id) {
        slot is None
    } else {
        &&& slot is Some
        &&& (slot->0 is PossiblyCurrent <==> holder_of(phase, current) == Some(id))
    }
}

/// The invariant of a tracker with entries `s`, current context `current`,
/// next identifier `next` and request `phase`.
pub open spec fn tracker_ok<P, N, E>(
    s: Seq<Slot<P, N>>,
    current: Option<ContextId>,
    next: ContextId,
    phase: Phase<E>,
) -> bool {
    &&& ids_increasing(s)
    &&& forall|i: int| 0 <= i < s.len() ==> #[trigger] s[i].0 < next
    &&& forall|i: int| 0 <= i < s.len() ==> #[trigger] slot_ok(s, i, current, phase)
    &&& (lent_of(phase) matches Some(l) ==> has_id(s, l))
    &&& (holder_of(phase, current) matches Some(h) ==> has_id(s, h))
    &&& match phase {
        Phase::Idle => true,
        Phase::Demoting { target, .. } => current != Some(target),
        Phase::Activating { target, previous } => {
            &&& current is None
            &&& previous != Some(target)
        },
        Phase::RollingBack { .. } => current is None,
        Phase::Broken { .. } => current is None,
    }
}

/// Contexts of several states, at most one of them current, each under an
/// identifier handed out once.
pub struct ContextTracker<P, N, E> {
    current: Option<ContextId>,
    others: Vec<Slot<P, N>>,
    next_id: ContextId,
    phase: Phase<E>,
}

impl<P, N, E> ContextTracker<P, N, E> {
    /// The entries, ordered by identifier.
    pub closed spec fn entries(self) -> Seq<Slot<P, N>> {
        self.others@
    }

    /// The identifier of the current context, if any.
    pub closed spec fn current_id(self) -> Option<ContextId> {
        self.current
    }

    /// The identifier the next insertion gets.
    pub closed spec fn next(self) -> ContextId {
        self.next_id
    }

    /// The request in progress.
    pub closed spec fn phase(self) -> Phase<E> {
        self.phase
    }

    /// The entry whose context the caller holds, if any.
    pub open spec fn lent(self) -> Option<ContextId> {
        lent_of(self.phase())
    }

    /// The entry that holds a possibly current context, if any.
    pub open spec fn holder(self) -> Option<ContextId> {
        holder_of(self.phase(), self.current_id())
    }

    /// Entry `i` is as the invariant asks.
    #[verifier::inline]
    pub open spec fn entry_ok(self, i: int) -> bool {
        slot_ok(self.entries(), i, self.current_id(), self.phase())
    }

    /// The tracker's invariant.
    pub open spec fn wf(self) -> bool {
        tracker_ok(self.entries(), self.current_id(), self.next(), self.phase())
    }

    /// `after` comes from `before` by tracker operations: the next identifier
    /// has not gone down, and every identifier of `after` was already in
    /// `before` or had not been handed out yet.
    pub open spec fn follows(before: Self, after: Self) -> bool {
        &&& before.next() <= after.next()
        &&& forall|id: ContextId|
            #[trigger] has_id(after.entries(), id) ==> has_id(before.entries(), id) || before.next() <= id
    }

    /// Each state of `run` follows the one before it.
    pub open spec fn is_run(run: Seq<Self>) -> bool {
        forall|i: int| #![trigger run[i]] 0 <= i < run.len() - 1 ==> Self::follows(run[i], run[i + 1])
    }

    /// An empty tracker.
    pub fn new() -> (t: Self)
        ensures
            t.wf(),
            t.entries() == Seq::<Slot<P, N>>::empty(),
            t.current_id() is None,
            t.next() == 0,
            t.phase() is Idle,
    {
        ContextTracker { current: None, others: Vec::new(), next_id: 0, phase: Phase::Idle }
    }

    /// The identifier the next insertion gets.
    pub fn next_id(&self) -> (id: ContextId)
        ensures
            id == self.next(),
    {
        self.next_id
    }

    /// The identifier of the current context, if any.
    pub fn current(&self) -> (c: Option<ContextId>)
        ensures
            c == self.current_id(),
    {
        self.current
    }

    /// Whether no request is in progress.
    pub fn is_idle(&self) -> (b: bool)
        ensures
            b == (self.phase() is Idle),
    {
        match self.phase {
            Phase::Idle => true,
            _ => false,
        }
    }

    /// The position of the entry with identifier `id`, if there is one.
    fn position(&self, id: ContextId) -> (r: Option<usize>)
        requires
            ids_increasing(self.entries()),
        ensures
            r is Some <==> has_id(self.entries(), id),
            r matches Some(idx) ==> idx < self.entries().len() && self.entries()[idx as int].0 == id
                && index_of(self.entries(), id) == idx,
    {
        let mut lo: usize = 0;
        let mut hi: usize = self.others.len();
        while lo < hi
            invariant
                lo <= hi <= self.others@.len(),
                ids_increasing(self.others@),
                forall|k: int| 0 <= k < lo ==> #[trigger] self.others@[k].0 < id,
                forall|k: int| hi <= k < self.others@.len() ==> #[trigger] self.others@[k].0 > id,
            decreases hi - lo,
        {
            let mid = lo + (hi - lo) / 2;
            let mid_id = self.others[mid].0;
            if mid_id == id {
                proof {
                    lemma_index_of(self.others@, id, mid as int);
                }
                return Some(mid);
            } else if mid_id < id {
                proof {
                    assert forall|k: int| 0 <= k < mid + 1 implies #[trigger] self.others@[k].0 < id by {
                        if k < mid {
                            assert(self.others@[k].0 < self.others@[mid as int].0);
                        }
                    }
                }
                lo = mid + 1;
            } else {
                proof {
                    assert forall|k: int| mid <= k < self.others@.len() implies #[trigger] self.others@[k].0 > id by {
                        if k > mid {
                            assert(self.others@[mid as int].0 < self.others@[k].0);
                        }
                    }
                }
                hi = mid;
            }
        }
        proof {
            if has_id(self.others@, id) {
                let k = index_of(self.others@, id);
                assert(self.others@[k].0 == id);
            }
        }
        None
    }

    /// The position of the entry with identifier `id`.
    fn find(&self, id: ContextId) -> (idx: usize)
        requires
            ids_increasing(self.entries()),
            has_id(self.entries(), id),
        ensures
            idx < self.entries().len(),
            self.entries()[idx as int].0 == id,
            index_of(self.entries(), id) == idx,
    {
        match self.position(id) {
            Some(idx) => idx,
            None => vstd::pervasive::unreached(),
        }
    }

    /// Whether some entry has identifier `id`.
    pub fn contains(&self, id: ContextId) -> (b: bool)
        requires
            self.wf(),
        ensures
            b == has_id(self.entries(), id),
    {
        self.position(id).is_some()
    }

    /// Takes the context out of the entry with identifier `id`.
    fn lend(&mut self, id: ContextId) -> (w: Option<ContextCurrentWrapper<P, N>>)
        requires
            ids_increasing(old(self).entries()),
            has_id(old(self).entries(), id),
        ensures
            w == slot_of(old(self).entries(), id),
            final(self).entries() == set_slot(old(self).entries(), id, None),
            final(self).current_id() == old(self).current_id(),
            final(self).next() == old(self).next(),
            final(self).phase() == old(self).phase(),
    {
        let idx = self.find(id);
        let w = self.others[idx].1.take();
        proof {
            assert(self.others@ =~= set_slot(old(self).entries(), id, None));
        }
        w
    }

    /// Puts `w` into the entry with identifier `id`.
    fn restore(&mut self, id: ContextId, w: ContextCurrentWrapper<P, N>)
        requires
            ids_increasing(old(self).entries()),
            has_id(old(self).entries(), id),
        ensures
            final(self).entries() == set_slot(old(self).entries(), id, Some(w)),
            final(self).current_id() == old(self).current_id(),
            final(self).next() == old(self).next(),
            final(self).phase() == old(self).phase(),
    {
        let idx = self.find(id);
        self.others[idx].1 = Some(w);
        proof {
            assert(self.others@ =~= set_slot(old(self).entries(), id, Some(w)));
        }
    }

    /// Adds `ctx` under a fresh identifier. Where `ctx` is possibly current and
    /// another context was current, that one is handed out to be marked not
    /// current, and `ctx` becomes the current context.
    pub fn insert(&mut self, ctx: ContextCurrentWrapper<P, N>) -> (res: (ContextId, Action<P, N, E>))
        requires
            old(self).wf(),
            old(self).phase() is Idle,
            old(self).next() < usize::MAX,
        ensures
            Self::follows(*old(self), *final(self)),
            final(self).wf(),
            res.0 == old(self).next(),
            final(self).next() == old(self).next() + 1,
            !has_id(old(self).entries(), res.0),
            ctx is PossiblyCurrent && old(self).current_id() is Some ==> {
                let cur = old(self).current_id()->0;
                &&& slot_of(old(self).entries(), cur) matches Some(ContextCurrentWrapper::PossiblyCurrent(p))
                    && res.1 == Action::<P, N, E>::TreatAsNotCurrent(p)
                &&& final(self).entries() == set_slot(old(self).entries(), cur, None).push((res.0, Some(ctx)))
                &&& final(self).current_id() == Some(res.0)
                &&& final(self).phase() == Phase::<E>::Demoting { target: cur, outcome: Outcome::Inserted(res.0) }
            },
            !(ctx is PossiblyCurrent && old(self).current_id() is Some) ==> {
                &&& res.1 == Action::<P, N, E>::Done(Outcome::Inserted(res.0))
                &&& final(self).entries() == old(self).entries().push((res.0, Some(ctx)))
                &&& final(self).current_id() == (if ctx is PossiblyCurrent {
                    Some(res.0)
                } else {
                    old(self).current_id()
                })
                &&& final(self).phase() is Idle
            },
    {
        let id = self.next_id;
        self.next_id = self.next_id + 1;
        let ghost s0 = self.others@;
        proof {
            if has_id(s0, id) {
                let k = index_of(s0, id);
                assert(old(self).entry_ok(k));
            }
        }
        let mut action = Action::Done(Outcome::Inserted(id));
        let possibly_current = match &ctx {
            ContextCurrentWrapper::PossiblyCurrent(_) => true,
            ContextCurrentWrapper::NotCurrent(_) => false,
        };
        if possibly_current {
            match self.current {
                Some(old_current) => {
                    proof {
                        let k = index_of(s0, old_current);
                        assert(old(self).entry_ok(k));
                    }
                    let taken = self.lend(old_current);
                    match taken {
                        Some(ContextCurrentWrapper::PossiblyCurrent(p)) => {
                            action = Action::TreatAsNotCurrent(p);
                        },
                        _ => {
                            proof {
                                assert(false);
                            }
                        },
                    }
                    self.phase = Phase::Demoting { target: old_current, outcome: Outcome::Inserted(id) };
                },
                None => {},
            }
            self.current = Some(id);
        }
        let ghost s1 = self.others@;
        self.others.push((id, Some(ctx)));
        proof {
            let s2 = self.others@;
            assert(s2.len() == s1.len() + 1);
            assert forall|i: int| 0 <= i < s1.len() implies s2[i] == s1[i] && s1[i].0 == s0[i].0 by {}
            assert(s2[s1.len() as int].0 == id);
            assert(has_id(s2, id));
            assert forall|i: int| 0 <= i < s2.len() implies #[trigger] self.entry_ok(i) by {
                if i < s1.len() {
                    assert(old(self).entry_ok(i));
                }
            }
            match self.lent() {
                Some(l) => {
                    let k = index_of(s0, l);
                    assert(s2[k].0 == l);
                },
                None => {},
            }
            match self.holder() {
                Some(h) => {
                    if h != id {
                        let k = index_of(s0, h);
                        assert(s2[k].0 == h);
                    }
                },
                None => {},
            }
        }
        (id, action)
    }
    /// Finishes an insertion or a switch: `ctx` is the former current context,
    /// now marked not current.
    pub fn treated_as_not_current(&mut self, ctx: N) -> (action: Action<P, N, E>)
        requires
            old(self).wf(),
            old(self).phase() is Demoting,
        ensures
            Self::follows(*old(self), *final(self)),
            final(self).wf(),
            final(self).entries() == set_slot(
                old(self).entries(),
                old(self).phase()->Demoting_target,
                Some(ContextCurrentWrapper::NotCurrent(ctx)),
            ),
            final(self).current_id() == old(self).current_id(),
            final(self).next() == old(self).next(),
            final(self).phase() is Idle,
            action == Action::<P, N, E>::Done(old(self).phase()->Demoting_outcome),
    {
        let mut phase = Phase::Idle;
        std::mem::swap(&mut phase, &mut self.phase);
        match phase {
            Phase::Demoting { target, outcome } => {
                let ghost s0 = self.others@;
                proof {
                    lemma_set_slot(s0, target, Some(ContextCurrentWrapper::<P, N>::NotCurrent(ctx)));
                }
                self.restore(target, ContextCurrentWrapper::NotCurrent(ctx));
                proof {
                    assert forall|i: int| 0 <= i < self.entries().len() implies #[trigger] self.entry_ok(i) by {
                        assert(old(self).entry_ok(i));
                    }
                    if let Some(h) = self.holder() {
                        assert(has_id(s0, h));
                    }
                }
                Action::Done(outcome)
            },
            _ => vstd::pervasive::unreached(),
        }
    }

    /// Starts making the context with identifier `id` current. Where it is
    /// current already the request is over; else it is handed out to be made
    /// current, and no context counts as current until the result is reported.
    pub fn get_current(&mut self, id: ContextId) -> (action: Action<P, N, E>)
        requires
            old(self).wf(),
            old(self).phase() is Idle,
            has_id(old(self).entries(), id),
        ensures
            Self::follows(*old(self), *final(self)),
            final(self).wf(),
            final(self).next() == old(self).next(),
            old(self).current_id() == Some(id) ==> {
                &&& action == Action::<P, N, E>::Done(Outcome::Current(id))
                &&& final(self).entries() == old(self).entries()
                &&& final(self).current_id() == old(self).current_id()
                &&& final(self).phase() is Idle
            },
            old(self).current_id() != Some(id) ==> {
                &&& slot_of(old(self).entries(), id) matches Some(ContextCurrentWrapper::NotCurrent(n))
                    && action == Action::<P, N, E>::MakeCurrent(n)
                &&& final(self).entries() == set_slot(old(self).entries(), id, None)
                &&& final(self).current_id() is None
                &&& final(self).phase() == Phase::<E>::Activating { target: id, previous: old(self).current_id() }
            },
    {
        if self.current == Some(id) {
            return Action::Done(Outcome::Current(id));
        }
        let ghost s0 = self.others@;
        proof {
            assert(old(self).entry_ok(index_of(s0, id)));
            lemma_set_slot(s0, id, None);
        }
        let previous = self.current.take();
        let taken = self.lend(id);
        self.phase = Phase::Activating { target: id, previous };
        proof {
            assert forall|i: int| 0 <= i < self.entries().len() implies #[trigger] self.entry_ok(i) by {
                assert(old(self).entry_ok(i));
            }
            if let Some(h) = self.holder() {
                assert(has_id(s0, h));
            }
        }
        match taken {
            Some(ContextCurrentWrapper::NotCurrent(n)) => Action::MakeCurrent(n),
            _ => vstd::pervasive::unreached(),
        }
    }

    /// Records the result of making the context current. On success it is the
    /// current context; on failure it stays not current. Either way the
    /// context that was current before is handed out: to be marked not current
    /// after a success, to be made not current after a failure.
    pub fn made_current(&mut self, result: Result<P, (N, E)>) -> (action: Action<P, N, E>)
        requires
            old(self).wf(),
            old(self).phase() is Activating,
        ensures
            Self::follows(*old(self), *final(self)),
            final(self).wf(),
            final(self).next() == old(self).next(),
            ({
                let target = old(self).phase()->Activating_target;
                let previous = old(self).phase()->Activating_previous;
                match result {
                    Ok(p) => {
                        let s1 = set_slot(old(self).entries(), target, Some(ContextCurrentWrapper::PossiblyCurrent(p)));
                        &&& final(self).current_id() == Some(target)
                        &&& match previous {
                            None => {
                                &&& action == Action::<P, N, E>::Done(Outcome::Current(target))
                                &&& final(self).entries() == s1
                                &&& final(self).phase() is Idle
                            },
                            Some(o) => {
                                &&& slot_of(old(self).entries(), o) matches Some(ContextCurrentWrapper::PossiblyCurrent(q))
                                    && action == Action::<P, N, E>::TreatAsNotCurrent(q)
                                &&& final(self).entries() == set_slot(s1, o, None)
                                &&& final(self).phase() == Phase::<E>::Demoting { target: o, outcome: Outcome::Current(target) }
                            },
                        }
                    },
                    Err((n, e)) => {
                        let s1 = set_slot(old(self).entries(), target, Some(ContextCurrentWrapper::NotCurrent(n)));
                        &&& final(self).current_id() is None
                        &&& match previous {
                            None => {
                                &&& action == Action::<P, N, E>::Done(Outcome::Failed(e))
                                &&& final(self).entries() == s1
                                &&& final(self).phase() is Idle
                            },
                            Some(o) => {
                                &&& slot_of(old(self).entries(), o) matches Some(ContextCurrentWrapper::PossiblyCurrent(q))
                                    && action == Action::<P, N, E>::MakeNotCurrent(q)
                                &&& final(self).entries() == set_slot(s1, o, None)
                                &&& final(self).phase() == Phase::<E>::RollingBack { previous: o, error: e }
                            },
                        }
                    },
                }
            }),
    {
        let mut phase = Phase::Idle;
        std::mem::swap(&mut phase, &mut self.phase);
        let (target, previous) = match phase {
            Phase::Activating { target, previous } => (target, previous),
            _ => vstd::pervasive::unreached(),
        };
        let ghost s0 = self.others@;
        let (w, error) = match result {
            Ok(p) => (ContextCurrentWrapper::PossiblyCurrent(p), None),
            Err((n, e)) => (ContextCurrentWrapper::NotCurrent(n), Some(e)),
        };
        let succeeded = error.is_none();
        proof {
            lemma_set_slot(s0, target, Some(w));
        }
        self.restore(target, w);
        let ghost s1 = self.others@;
        if succeeded {
            self.current = Some(target);
        }
        match previous {
            None => {
                proof {
                    assert forall|i: int| 0 <= i < self.entries().len() implies #[trigger] self.entry_ok(i) by {
                        assert(old(self).entry_ok(i));
                    }
                }
                match error {
                    None => Action::Done(Outcome::Current(target)),
                    Some(e) => Action::Done(Outcome::Failed(e)),
                }
            },
            Some(o) => {
                proof {
                    assert(old(self).entry_ok(index_of(s0, o)));
                    lemma_set_slot(s1, o, None);
                }
                let taken = self.lend(o);
                let q = match taken {
                    Some(ContextCurrentWrapper::PossiblyCurrent(q)) => q,
                    _ => vstd::pervasive::unreached(),
                };
                match error {
                    None => {
                        self.phase = Phase::Demoting { target: o, outcome: Outcome::Current(target) };
                        proof {
                            assert forall|i: int| 0 <= i < self.entries().len() implies #[trigger] self.entry_ok(i) by {
                                assert(old(self).entry_ok(i));
                            }
                            assert(has_id(s1, target));
                        }
                        Action::TreatAsNotCurrent(q)
                    },
                    Some(e) => {
                        self.phase = Phase::RollingBack { previous: o, error: e };
                        proof {
                            assert forall|i: int| 0 <= i < self.entries().len() implies #[trigger] self.entry_ok(i) by {
                                assert(old(self).entry_ok(i));
                            }
                        }
                        Action::MakeNotCurrent(q)
                    },
                }
            },
        }
    }

    /// Records the result of making the formerly current context not current
    /// after a failed switch. On success the request ends with the first
    /// failure and no context is current; on failure the tracker is broken.
    pub fn made_not_current(&mut self, result: Result<N, (P, E)>) -> (action: Action<P, N, E>)
        requires
            old(self).wf(),
            old(self).phase() is RollingBack,
        ensures
            Self::follows(*old(self), *final(self)),
            final(self).wf(),
            final(self).next() == old(self).next(),
            final(self).current_id() is None,
            ({
                let previous = old(self).phase()->RollingBack_previous;
                let error = old(self).phase()->RollingBack_error;
                match result {
                    Ok(n) => {
                        &&& final(self).entries() == set_slot(old(self).entries(), previous, Some(ContextCurrentWrapper::NotCurrent(n)))
                        &&& final(self).phase() is Idle
                        &&& action == Action::<P, N, E>::Done(Outcome::Failed(error))
                    },
                    Err((p, e)) => {
                        &&& final(self).entries() == set_slot(old(self).entries(), previous, Some(ContextCurrentWrapper::PossiblyCurrent(p)))
                        &&& final(self).phase() == Phase::<E>::Broken { stuck: previous }
                        &&& action == Action::<P, N, E>::Done(Outcome::Unrecoverable(error, e))
                    },
                }
            }),
    {
        let mut phase = Phase::Idle;
        std::mem::swap(&mut phase, &mut self.phase);
        let (previous, error) = match phase {
            Phase::RollingBack { previous, error } => (previous, error),
            _ => vstd::pervasive::unreached(),
        };
        let ghost s0 = self.others@;
        match result {
            Ok(n) => {
                proof {
                    lemma_set_slot(s0, previous, Some(ContextCurrentWrapper::<P, N>::NotCurrent(n)));
                }
                self.restore(previous, ContextCurrentWrapper::NotCurrent(n));
                proof {
                    assert forall|i: int| 0 <= i < self.entries().len() implies #[trigger] self.entry_ok(i) by {
                        assert(old(self).entry_ok(i));
                    }
                }
                Action::Done(Outcome::Failed(error))
            },
            Err((p, e)) => {
                proof {
                    lemma_set_slot(s0, previous, Some(ContextCurrentWrapper::<P, N>::PossiblyCurrent(p)));
                }
                self.restore(previous, ContextCurrentWrapper::PossiblyCurrent(p));
                self.phase = Phase::Broken { stuck: previous };
                proof {
                    assert forall|i: int| 0 <= i < self.entries().len() implies #[trigger] self.entry_ok(i) by {
                        assert(old(self).entry_ok(i));
                    }
                }
                Action::Done(Outcome::Unrecoverable(error, e))
            },
        }
    }

    /// Takes the context with identifier `id` out of the tracker. Where it was
    /// current, no context is current afterwards.
    pub fn remove(&mut self, id: ContextId) -> (ctx: ContextCurrentWrapper<P, N>)
        requires
            old(self).wf(),
            old(self).phase() is Idle,
            has_id(old(self).entries(), id),
        ensures
            Self::follows(*old(self), *final(self)),
            final(self).wf(),
            slot_of(old(self).entries(), id) == Some(ctx),
            final(self).entries() == old(self).entries().remove(index_of(old(self).entries(), id)),
            final(self).current_id() == (if old(self).current_id() == Some(id) {
                None
            } else {
                old(self).current_id()
            }),
            final(self).next() == old(self).next(),
            final(self).phase() is Idle,
    {
        if self.current == Some(id) {
            self.current = None;
        }
        let ghost s0 = self.others@;
        let idx = self.find(id);
        proof {
            assert(old(self).entry_ok(idx as int));
        }
        let (_, slot) = self.others.remove(idx);
        proof {
            let s1 = self.others@;
            assert forall|i: int, j: int| 0 <= i < j < s1.len() implies #[trigger] s1[i].0 < #[trigger] s1[j].0 by {
                let i0 = if i < idx { i } else { i + 1 };
                let j0 = if j < idx { j } else { j + 1 };
                assert(s1[i] == s0[i0] && s1[j] == s0[j0]);
                assert(s0[i0].0 < s0[j0].0);
            }
            assert forall|i: int| 0 <= i < s1.len() implies #[trigger] s1[i].0 < self.next() by {
                let i0 = if i < idx { i } else { i + 1 };
                assert(s1[i] == s0[i0]);
            }
            assert forall|i: int| 0 <= i < s1.len() implies #[trigger] self.entry_ok(i) by {
                let i0 = if i < idx { i } else { i + 1 };
                assert(s1[i] == s0[i0]);
                assert(old(self).entry_ok(i0));
                if s0[i0].0 == id {
                    lemma_index_of(s0, id, i0);
                }
            }
            if let Some(c) = self.current {
                let k = index_of(s0, c);
                assert(s0[k].0 == c);
                if k < idx {
                    assert(s1[k] == s0[k]);
                } else {
                    assert(k != idx);
                    assert(s1[k - 1] == s0[k]);
                }
            }
        }
        match slot {
            Some(ctx) => ctx,
            None => vstd::pervasive::unreached(),
        }
    }

    /// The current context, which has identifier `id`.
    pub fn current_context(&mut self, id: ContextId) -> (ctx: &mut P)
        requires
            old(self).wf(),
            old(self).phase() is Idle,
            old(self).current_id() == Some(id),
        ensures
            Self::follows(*old(self), *final(self)),
            slot_of(old(self).entries(), id) == Some(ContextCurrentWrapper::<P, N>::PossiblyCurrent(*ctx)),
            final(self).entries() == set_slot(
                old(self).entries(),
                id,
                Some(ContextCurrentWrapper::PossiblyCurrent(*final(ctx))),
            ),
            final(self).current_id() == old(self).current_id(),
            final(self).next() == old(self).next(),
            final(self).phase() is Idle,
            final(self).wf(),
    {
        let idx = self.find(id);
        proof {
            assert(old(self).entry_ok(idx as int));
        }
        proof {
            let s0 = old(self).entries();
            lemma_set_slot(s0, id, None);
            assert forall|q: P|
                #[trigger] tracker_ok(
                    set_slot(s0, id, Some(ContextCurrentWrapper::<P, N>::PossiblyCurrent(q))),
                    self.current,
                    self.next_id,
                    self.phase,
                ) by {
                lemma_set_slot(s0, id, Some(ContextCurrentWrapper::<P, N>::PossiblyCurrent(q)));
                let t = set_slot(s0, id, Some(ContextCurrentWrapper::<P, N>::PossiblyCurrent(q)));
                assert forall|i: int| 0 <= i < t.len() implies #[trigger] slot_ok(t, i, self.current, self.phase) by {
                    assert(old(self).entry_ok(i));
                }
            }
        }
        match &mut self.others[idx].1 {
            Some(ContextCurrentWrapper::PossiblyCurrent(ctx)) => ctx,
            _ => vstd::pervasive::unreached(),
        }
    }

    /// A later state of a run follows every earlier one.
    pub proof fn lemma_run_follows(run: Seq<Self>, i: int, j: int)
        requires
            Self::is_run(run),
            0 <= i <= j < run.len(),
        ensures
            Self::follows(run[i], run[j]),
        decreases j - i,
    {
        if i < j {
            Self::lemma_run_follows(run, i + 1, j);
            assert(Self::follows(run[i], run[i + 1]));
            assert forall|id: ContextId| #[trigger] has_id(run[j].entries(), id) implies has_id(
                run[i].entries(),
                id,
            ) || run[i].next() <= id by {
                if has_id(run[i + 1].entries(), id) {
                } else {
                    assert(run[i + 1].next() <= id);
                }
            }
        }
    }

    /// Identifiers are handed out once. Along any run of tracker operations,
    /// an identifier already handed out (below `next`) stays below `next`, so
    /// no later insertion, which returns `next`, gives it again; and an
    /// identifier that is not in the tracker, a removed one among them, never
    /// comes back.
    pub proof fn lemma_identifiers_not_reused(run: Seq<Self>, a: ContextId, j: int)
        requires
            Self::is_run(run),
            0 <= j < run.len(),
            a < run[0].next(),
        ensures
            a < run[j].next(),
            !has_id(run[0].entries(), a) ==> !has_id(run[j].entries(), a),
    {
        Self::lemma_run_follows(run, 0, j);
        if !has_id(run[0].entries(), a) && has_id(run[j].entries(), a) {
            assert(run[0].next() <= a);
        }
    }

    /// With no request in progress every entry holds its context, a context
    /// is possibly current exactly when its entry is the current one, and the
    /// current identifier belongs to an entry.
    pub proof fn lemma_current_discipline(self, i: int)
        requires
            self.wf(),
            self.phase() is Idle,
            0 <= i < self.entries().len(),
        ensures
            self.entries()[i].1 is Some,
            self.entries()[i].1->0 is PossiblyCurrent <==> self.current_id() == Some(self.entries()[i].0),
            self.current_id() matches Some(c) ==> has_id(self.entries(), c),
    {
        assert(self.entry_ok(i));
    }

    /// With no request in progress at most one context is possibly current.
    pub proof fn lemma_at_most_one_current(self, i: int, j: int)
        requires
            self.wf(),
            self.phase() is Idle,
            0 <= i < self.entries().len(),
            0 <= j < self.entries().len(),
            self.entries()[i].1 matches Some(ContextCurrentWrapper::PossiblyCurrent(_)),
            self.entries()[j].1 matches Some(ContextCurrentWrapper::PossiblyCurrent(_)),
        ensures
            i == j,
    {
        assert(self.entry_ok(i));
        assert(self.entry_ok(j));
        if i < j {
            assert(self.entries()[i].0 < self.entries()[j].0);
        } else if j < i {
            assert(self.entries()[j].0 < self.entries()[i].0);
        }
    }
}

impl<P, N, E> Default for ContextTracker<P, N, E> {
    /// An empty tracker.
    fn default() -> (t: Self)
        ensures
            t.wf(),
            t.entries() == Seq::<Slot<P, N>>::empty(),
            t.current_id() is None,
            t.next() == 0,
            t.phase() is Idle,
    {
        Self::new()
    }
}

/// Removing the identifier that an insertion appended gives back the context
/// it was inserted with and the entries as they were before.
pub proof fn lemma_remove_inserted<P, N>(s: Seq<Slot<P, N>>, id: ContextId, w: Option<ContextCurrentWrapper<P, N>>)
    requires
        ids_increasing(s),
        forall|i: int| 0 <= i < s.len() ==> #[trigger] s[i].0 < id,
    ensures
        ids_increasing(s.push((id, w))),
        has_id(s.push((id, w)), id),
        slot_of(s.push((id, w)), id) == w,
        s.push((id, w)).remove(index_of(s.push((id, w)), id)) == s,
{
    let t = s.push((id, w));
    assert forall|i: int, j: int| 0 <= i < j < t.len() implies #[trigger] t[i].0 < #[trigger] t[j].0 by {
        if j == s.len() {
            assert(t[i] == s[i]);
        } else {
            assert(t[i] == s[i] && t[j] == s[j]);
        }
    }
    lemma_index_of(t, id, s.len() as int);
    assert(t.remove(s.len() as int) =~= s);
}

} // verus!
