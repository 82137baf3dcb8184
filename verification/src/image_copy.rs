//! Bookkeeping of image-copy capture: the capture sessions attached to an
//! output, a workspace or a window, and the frames that wait to be rendered.
//!
//! The session and frame types are the protocol's own; what is stated of
//! removing by `==` holds where their `==` follows its specification
//! (`obeys_eq_spec`).
use vstd::prelude::*;
use vstd::std_specs::cmp::PartialEqSpec;

verus! {

/// `s` without the elements that equal `r`.
pub open spec fn without<T, R>(s: Seq<T>, r: R) -> Seq<T> where T: PartialEq<R> {
    s.filter(|x: T| !x.eq_spec(&r))
}

/// `s` without the pairs whose first part equals `r`.
pub open spec fn without_first<A, B, R>(s: Seq<(A, B)>, r: R) -> Seq<(A, B)> where A: PartialEq<R> {
    s.filter(|x: (A, B)| !x.0.eq_spec(&r))
}

/// `s` without the pairs whose second part equals `r`.
pub open spec fn without_second<A, B, R>(s: Seq<(A, B)>, r: R) -> Seq<(A, B)> where B: PartialEq<R> {
    s.filter(|x: (A, B)| !x.1.eq_spec(&r))
}

/// Every element of `kept` is an element of `all`.
pub open spec fn drawn_from<T>(kept: Seq<T>, all: Seq<T>) -> bool {
    forall|i: int| 0 <= i < kept.len() ==> #[trigger] all.contains(kept[i])
}

proof fn lemma_filter_step<T>(s: Seq<T>, j: int, p: spec_fn(T) -> bool)
    requires
        0 <= j < s.len(),
    ensures
        s.take(j + 1).filter(p) == if p(s[j]) {
            s.take(j).filter(p).push(s[j])
        } else {
            s.take(j).filter(p)
        },
{
    reveal(Seq::filter);
    assert(s.take(j + 1).drop_last() =~= s.take(j));
}

/// Removes from `v` the elements that `matches` picks, keeping the order of
/// the others. Where `exact` holds, `matches` picks exactly the elements that
/// satisfy `picked`.
fn remove_where<T, P>(
    v: &mut Vec<T>,
    matches: P,
    Ghost(exact): Ghost<bool>,
    Ghost(picked): Ghost<spec_fn(T) -> bool>,
) where P: Fn(&T) -> bool
    requires
        forall|x: &T| #[trigger] matches.requires((x,)),
        forall|x: &T, b: bool| #[trigger] matches.ensures((x,), b) ==> (exact ==> b == picked(*x)),
    ensures
        exact ==> final(v)@ == old(v)@.filter(|x: T| !picked(x)),
        final(v)@.len() <= old(v)@.len(),
        drawn_from(final(v)@, old(v)@),
{
    let ghost all = v@;
    let ghost keep = |x: T| !picked(x);
    let mut i: usize = 0;
    let ghost mut j: int = 0;
    assert(all.take(0).filter(keep) =~= Seq::<T>::empty()) by {
        reveal(Seq::filter);
    }
    assert(all.skip(0) =~= all);
    while i < v.len()
        invariant
            0 <= i <= j <= all.len(),
            v@.len() == i + (all.len() - j),
            v@.subrange(i as int, v@.len() as int) =~= all.skip(j),
            exact ==> v@.take(i as int) == all.take(j).filter(keep),
            drawn_from(v@.take(i as int), all),
            keep == (|x: T| !picked(x)),
            forall|x: &T| #[trigger] matches.requires((x,)),
            forall|x: &T, b: bool| #[trigger] matches.ensures((x,), b) ==> (exact ==> b == picked(
                *x,
            )),
        decreases v@.len() - i,
    {
        proof {
            lemma_filter_step(all, j, keep);
            assert(v@.subrange(i as int, v@.len() as int)[0] == v@[i as int]);
            assert(v@[i as int] == all[j]);
        }
        if matches(&v[i]) {
            let ghost before = v@;
            v.remove(i);
            proof {
                assert(v@.take(i as int) =~= before.take(i as int));
                assert(v@.subrange(i as int, v@.len() as int) =~= before.subrange(
                    i + 1,
                    before.len() as int,
                ));
                assert(before.subrange(i + 1, before.len() as int) =~= before.subrange(
                    i as int,
                    before.len() as int,
                ).skip(1));
                assert(all.skip(j).skip(1) =~= all.skip(j + 1));
                j = j + 1;
            }
        } else {
            let ghost before = v@;
            proof {
                assert(v@.take(i + 1) =~= before.take(i as int).push(all[j]));
                assert(all.contains(all[j]));
                assert(v@.subrange(i + 1, v@.len() as int) =~= v@.subrange(
                    i as int,
                    v@.len() as int,
                ).skip(1));
                assert(all.skip(j).skip(1) =~= all.skip(j + 1));
                j = j + 1;
            }
            i = i + 1;
        }
    }
    proof {
        assert(j == all.len());
        assert(v@.take(i as int) =~= v@);
        assert(all.take(j) =~= all);
    }
}

/// Removes from `v` the elements that equal `r`, keeping the order of the others.
pub fn remove_equal<T, R>(v: &mut Vec<T>, r: &R) where T: PartialEq<R>
    ensures
        <T as PartialEqSpec<R>>::obeys_eq_spec() ==> final(v)@ == without(old(v)@, *r),
        final(v)@.len() <= old(v)@.len(),
        drawn_from(final(v)@, old(v)@),
{
    let ghost exact = <T as PartialEqSpec<R>>::obeys_eq_spec();
    let ghost picked = |x: T| x.eq_spec(r);
    let matches = |x: &T| -> (b: bool)
        ensures
            <T as PartialEqSpec<R>>::obeys_eq_spec() ==> b == x.eq_spec(r),
        { x.eq(r) };
    remove_where(v, matches, Ghost(exact), Ghost(picked));
    assert((|x: T| !picked(x)) =~= (|x: T| !x.eq_spec(r)));
}

/// Removes from `v` the pairs whose first part equals `r`, keeping the order of the others.
fn remove_first_equal<A, B, R>(v: &mut Vec<(A, B)>, r: &R) where A: PartialEq<R>
    ensures
        <A as PartialEqSpec<R>>::obeys_eq_spec() ==> final(v)@ == without_first(old(v)@, *r),
        final(v)@.len() <= old(v)@.len(),
        drawn_from(final(v)@, old(v)@),
{
    let ghost exact = <A as PartialEqSpec<R>>::obeys_eq_spec();
    let ghost picked = |x: (A, B)| x.0.eq_spec(r);
    let matches = |x: &(A, B)| -> (b: bool)
        ensures
            <A as PartialEqSpec<R>>::obeys_eq_spec() ==> b == x.0.eq_spec(r),
        { x.0.eq(r) };
    remove_where(v, matches, Ghost(exact), Ghost(picked));
    assert((|x: (A, B)| !picked(x)) =~= (|x: (A, B)| !x.0.eq_spec(r)));
}

/// Removes from `v` the pairs whose second part equals `r`, keeping the order of the others.
fn remove_second_equal<A, B, R>(v: &mut Vec<(A, B)>, r: &R) where B: PartialEq<R>
    ensures
        <B as PartialEqSpec<R>>::obeys_eq_spec() ==> final(v)@ == without_second(old(v)@, *r),
        final(v)@.len() <= old(v)@.len(),
        drawn_from(final(v)@, old(v)@),
{
    let ghost exact = <B as PartialEqSpec<R>>::obeys_eq_spec();
    let ghost picked = |x: (A, B)| x.1.eq_spec(r);
    let matches = |x: &(A, B)| -> (b: bool)
        ensures
            <B as PartialEqSpec<R>>::obeys_eq_spec() ==> b == x.1.eq_spec(r),
        { x.1.eq(r) };
    remove_where(v, matches, Ghost(exact), Ghost(picked));
    assert((|x: (A, B)| !picked(x)) =~= (|x: (A, B)| !x.1.eq_spec(r)));
}

/// The capture sessions attached to one output, workspace or window.
#[derive(Debug)]
pub struct ImageCopySessions<S, C> {
    sessions: Vec<S>,
    cursor_sessions: Vec<C>,
}

impl<S, C> Default for ImageCopySessions<S, C> {
    fn default() -> (r: Self)
        ensures
            r.sessions() == Seq::<S>::empty(),
            r.cursor_sessions() == Seq::<C>::empty(),
    {
        ImageCopySessions { sessions: Vec::new(), cursor_sessions: Vec::new() }
    }
}

impl<S, C> ImageCopySessions<S, C> {
    /// The attached capture sessions, oldest first.
    pub closed spec fn sessions(&self) -> Seq<S> {
        self.sessions@
    }

    /// The attached cursor capture sessions, oldest first.
    pub closed spec fn cursor_sessions(&self) -> Seq<C> {
        self.cursor_sessions@
    }

    /// Attaches a capture session.
    pub fn add_session(&mut self, session: S)
        ensures
            final(self).sessions() == old(self).sessions().push(session),
            final(self).cursor_sessions() == old(self).cursor_sessions(),
    {
        self.sessions.push(session);
    }

    /// Detaches every capture session that equals `session`.
    pub fn remove_session<R>(&mut self, session: &R) where S: PartialEq<R>
        ensures
            <S as PartialEqSpec<R>>::obeys_eq_spec() ==> final(self).sessions() == without(
                old(self).sessions(),
                *session,
            ),
            drawn_from(final(self).sessions(), old(self).sessions()),
            final(self).sessions().len() <= old(self).sessions().len(),
            final(self).cursor_sessions() == old(self).cursor_sessions(),
    {
        remove_equal(&mut self.sessions, session);
    }

    /// Whether any capture session is attached.
    pub fn has_sessions(&self) -> (r: bool)
        ensures
            r == (self.sessions().len() > 0),
    {
        self.sessions.len() > 0
    }

    /// Attaches a cursor capture session.
    pub fn add_cursor_session(&mut self, session: C)
        ensures
            final(self).cursor_sessions() == old(self).cursor_sessions().push(session),
            final(self).sessions() == old(self).sessions(),
    {
        self.cursor_sessions.push(session);
    }

    /// Detaches every cursor capture session that equals `session`.
    pub fn remove_cursor_session<R>(&mut self, session: &R) where C: PartialEq<R>
        ensures
            <C as PartialEqSpec<R>>::obeys_eq_spec() ==> final(self).cursor_sessions() == without(
                old(self).cursor_sessions(),
                *session,
            ),
            drawn_from(final(self).cursor_sessions(), old(self).cursor_sessions()),
            final(self).cursor_sessions().len() <= old(self).cursor_sessions().len(),
            final(self).sessions() == old(self).sessions(),
    {
        remove_equal(&mut self.cursor_sessions, session);
    }

    /// Whether any cursor capture session is attached.
    pub fn has_cursor_sessions(&self) -> (r: bool)
        ensures
            r == (self.cursor_sessions().len() > 0),
    {
        self.cursor_sessions.len() > 0
    }

    /// The attached cursor capture sessions, oldest first, for the caller to visit.
    pub fn cursor_session_list(&self) -> (r: &[C])
        ensures
            r@ == self.cursor_sessions(),
    {
        self.cursor_sessions.as_slice()
    }
}

/// The frames that wait to be rendered for an output, each with the capture
/// session it belongs to.
#[derive(Debug)]
pub struct PendingFrames<S, F> {
    frames: Vec<(S, F)>,
}

impl<S, F> Default for PendingFrames<S, F> {
    fn default() -> (r: Self)
        ensures
            r.frames() == Seq::<(S, F)>::empty(),
    {
        PendingFrames { frames: Vec::new() }
    }
}

impl<S, F> PendingFrames<S, F> {
    /// The waiting frames, oldest first.
    pub closed spec fn frames(&self) -> Seq<(S, F)> {
        self.frames@
    }

    /// Queues `frame` for `session`, in place of any frame that waits for an
    /// equal session.
    pub fn add_frame(&mut self, session: S, frame: F) where S: PartialEq
        ensures
            <S as PartialEqSpec>::obeys_eq_spec() ==> final(self).frames() == without_first(
                old(self).frames(),
                session,
            ).push((session, frame)),
            final(self).frames().last() == (session, frame),
            final(self).frames().len() <= old(self).frames().len() + 1,
            drawn_from(final(self).frames().drop_last(), old(self).frames()),
    {
        remove_first_equal(&mut self.frames, &session);
        let ghost kept = self.frames@;
        self.frames.push((session, frame));
        assert(self.frames@.drop_last() =~= kept);
    }

    /// Drops every waiting frame that equals `frame`.
    pub fn remove_frame<R>(&mut self, frame: &R) where F: PartialEq<R>
        ensures
            <F as PartialEqSpec<R>>::obeys_eq_spec() ==> final(self).frames() == without_second(
                old(self).frames(),
                *frame,
            ),
            drawn_from(final(self).frames(), old(self).frames()),
            final(self).frames().len() <= old(self).frames().len(),
    {
        remove_second_equal(&mut self.frames, frame);
    }

    /// Drops every waiting frame whose session equals `session`.
    pub fn remove_session_frames<R>(&mut self, session: &R) where S: PartialEq<R>
        ensures
            <S as PartialEqSpec<R>>::obeys_eq_spec() ==> final(self).frames() == without_first(
                old(self).frames(),
                *session,
            ),
            drawn_from(final(self).frames(), old(self).frames()),
            final(self).frames().len() <= old(self).frames().len(),
    {
        remove_first_equal(&mut self.frames, session);
    }

    /// Takes all waiting frames, oldest first, and leaves none.
    pub fn take_pending_frames(&mut self) -> (taken: Vec<(S, F)>)
        ensures
            taken@ == old(self).frames(),
            final(self).frames() == Seq::<(S, F)>::empty(),
    {
        let mut taken = Vec::new();
        std::mem::swap(&mut taken, &mut self.frames);
        taken
    }
}

/// After a frame is queued for a session, it is the only frame that waits for
/// that session, provided the session equals itself.
pub proof fn lemma_one_frame_per_session<S: PartialEq, F>(pending: Seq<(S, F)>, session: S, frame: F)
    requires
        session.eq_spec(&session),
    ensures
        without_first(pending, session).push((session, frame)).filter(
            |x: (S, F)| x.0.eq_spec(&session),
        ) == seq![(session, frame)],
{
    let keep = |x: (S, F)| !x.0.eq_spec(&session);
    let same = |x: (S, F)| x.0.eq_spec(&session);
    let kept = pending.filter(keep);
    broadcast use vstd::seq_lib::group_filter_ensures;
    assert(kept.filter(same) =~= Seq::<(S, F)>::empty()) by {
        if kept.filter(same).len() > 0 {
            let x = kept.filter(same)[0];
            assert(same(x));
            assert(kept.filter(same).contains(x));
            kept.lemma_filter_contains_rev(same, x);
            let k = choose|k: int| 0 <= k < kept.len() && kept[k] == x;
            assert(keep(kept[k]));
        }
    }
    reveal(Seq::filter);
    assert(kept.push((session, frame)).drop_last() =~= kept);
    assert(kept.push((session, frame)).filter(same) =~= kept.filter(same).push((session, frame)));
}

proof fn lemma_filter_keeps_all<T>(s: Seq<T>, p: spec_fn(T) -> bool)
    requires
        forall|i: int| 0 <= i < s.len() ==> #[trigger] p(s[i]),
    ensures
        s.filter(p) == s,
    decreases s.len(),
{
    reveal(Seq::filter);
    if s.len() > 0 {
        lemma_filter_keeps_all(s.drop_last(), p);
        assert(s.drop_last().push(s.last()) =~= s);
    }
}

/// Attaching a session and then detaching by a reference equal to it, and to
/// no session attached before, leaves the sessions as they were.
pub proof fn lemma_add_then_remove<S, R>(sessions: Seq<S>, session: S, r: R) where S: PartialEq<R>
    requires
        session.eq_spec(&r),
        forall|i: int| 0 <= i < sessions.len() ==> !(#[trigger] sessions[i]).eq_spec(&r),
    ensures
        without(sessions.push(session), r) == sessions,
{
    let keep = |x: S| !x.eq_spec(&r);
    reveal(Seq::filter);
    assert(sessions.push(session).drop_last() =~= sessions);
    assert forall|i: int| 0 <= i < sessions.len() implies #[trigger] keep(sessions[i]) by {}
    lemma_filter_keeps_all(sessions, keep);
}

} // verus!
