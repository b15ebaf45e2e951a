//! The session registry: a bidirectional binding between authenticated user
//! ids and live transport session ids.

use vstd::prelude::*;

use crate::protocol::UserId;
use crate::store::{pairs_view, PairView};
use crate::text::string_eq;

verus! {

/// Identifier of a live transport session.
pub type SessionId = String;

/// Whether some binding names this user.
pub open spec fn user_bound(b: Seq<PairView>, u: Seq<char>) -> bool {
    exists|i: int| 0 <= i < b.len() && (#[trigger] b[i]).0 == u
}

/// Whether some binding names this session.
pub open spec fn session_bound(b: Seq<PairView>, s: Seq<char>) -> bool {
    exists|i: int| 0 <= i < b.len() && (#[trigger] b[i]).1 == s
}

/// The session bound to a user (unique when the registry is well-formed).
pub open spec fn session_of_user(b: Seq<PairView>, u: Seq<char>) -> Seq<char> {
    b[choose|i: int| 0 <= i < b.len() && b[i].0 == u].1
}

/// The user bound to a session (unique when the registry is well-formed).
pub open spec fn user_of_session(b: Seq<PairView>, s: Seq<char>) -> Seq<char> {
    b[choose|i: int| 0 <= i < b.len() && b[i].1 == s].0
}

/// The bindings that do not name a user.
pub open spec fn drop_user(b: Seq<PairView>, u: Seq<char>) -> Seq<PairView>
    decreases b.len(),
{
    if b.len() == 0 {
        b
    } else {
        let rest = drop_user(b.drop_last(), u);
        if b.last().0 != u {
            rest.push(b.last())
        } else {
            rest
        }
    }
}

/// The bindings that do not name a session.
pub open spec fn drop_session(b: Seq<PairView>, s: Seq<char>) -> Seq<PairView>
    decreases b.len(),
{
    if b.len() == 0 {
        b
    } else {
        let rest = drop_session(b.drop_last(), s);
        if b.last().1 != s {
            rest.push(b.last())
        } else {
            rest
        }
    }
}

/// Membership after dropping a user's bindings.
pub proof fn lemma_drop_user_membership(b: Seq<PairView>, u: Seq<char>)
    ensures
        forall|p: PairView| #[trigger] drop_user(b, u).contains(p) <==> b.contains(p) && p.0 != u,
    decreases b.len(),
{
    if b.len() == 0 {
    } else {
        let rest = b.drop_last();
        lemma_drop_user_membership(rest, u);
        assert forall|p: PairView| #[trigger] drop_user(b, u).contains(p) implies b.contains(p)
            && p.0 != u by {
            if drop_user(rest, u).contains(p) {
                let k = choose|k: int| 0 <= k < rest.len() && rest[k] == p;
                assert(b[k] == p);
            } else {
                assert(p == b.last());
                assert(b[b.len() - 1] == p);
            }
        }
        assert forall|p: PairView| b.contains(p) && p.0 != u implies #[trigger] drop_user(
            b,
            u,
        ).contains(p) by {
            let k = choose|k: int| 0 <= k < b.len() && b[k] == p;
            if k < b.len() - 1 {
                assert(rest[k] == p);
                assert(rest.contains(p));
                assert(drop_user(rest, u).contains(p));
                let m = choose|m: int|
                    0 <= m < drop_user(rest, u).len() && drop_user(rest, u)[m] == p;
                assert(drop_user(b, u)[m] == p);
            } else {
                assert(p == b.last());
                assert(drop_user(b, u).last() == p);
            }
        }
    }
}

/// Membership after dropping a session's binding.
pub proof fn lemma_drop_session_membership(b: Seq<PairView>, s: Seq<char>)
    ensures
        forall|p: PairView| #[trigger] drop_session(b, s).contains(p) <==> b.contains(p) && p.1
            != s,
    decreases b.len(),
{
    if b.len() == 0 {
    } else {
        let rest = b.drop_last();
        lemma_drop_session_membership(rest, s);
        assert forall|p: PairView| #[trigger] drop_session(b, s).contains(p) implies b.contains(p)
            && p.1 != s by {
            if drop_session(rest, s).contains(p) {
                let k = choose|k: int| 0 <= k < rest.len() && rest[k] == p;
                assert(b[k] == p);
            } else {
                assert(p == b.last());
                assert(b[b.len() - 1] == p);
            }
        }
        assert forall|p: PairView| b.contains(p) && p.1 != s implies #[trigger] drop_session(
            b,
            s,
        ).contains(p) by {
            let k = choose|k: int| 0 <= k < b.len() && b[k] == p;
            if k < b.len() - 1 {
                assert(rest[k] == p);
                assert(rest.contains(p));
                assert(drop_session(rest, s).contains(p));
                let m = choose|m: int|
                    0 <= m < drop_session(rest, s).len() && drop_session(rest, s)[m] == p;
                assert(drop_session(b, s)[m] == p);
            } else {
                assert(p == b.last());
                assert(drop_session(b, s).last() == p);
            }
        }
    }
}

/// Every binding that survives a drop is a binding of the original.
pub proof fn lemma_drop_user_subset(b: Seq<PairView>, u: Seq<char>)
    ensures
        forall|i: int|
            0 <= i < drop_user(b, u).len() ==> b.contains(#[trigger] drop_user(b, u)[i])
                && drop_user(b, u)[i].0 != u,
{
    lemma_drop_user_membership(b, u);
    assert forall|i: int| 0 <= i < drop_user(b, u).len() implies b.contains(
        #[trigger] drop_user(b, u)[i],
    ) && drop_user(b, u)[i].0 != u by {
        assert(drop_user(b, u).contains(drop_user(b, u)[i]));
    }
}

/// Every binding that survives a session drop is a binding of the original.
pub proof fn lemma_drop_session_subset(b: Seq<PairView>, s: Seq<char>)
    ensures
        forall|i: int|
            0 <= i < drop_session(b, s).len() ==> b.contains(#[trigger] drop_session(b, s)[i])
                && drop_session(b, s)[i].1 != s,
{
    lemma_drop_session_membership(b, s);
    assert forall|i: int| 0 <= i < drop_session(b, s).len() implies b.contains(
        #[trigger] drop_session(b, s)[i],
    ) && drop_session(b, s)[i].1 != s by {
        assert(drop_session(b, s).contains(drop_session(b, s)[i]));
    }
}

/// Dropping a user's bindings keeps the registry well-formed.
pub proof fn lemma_drop_user_wf(b: Seq<PairView>, u: Seq<char>)
    requires
        registry_wf(b),
    ensures
        registry_wf(drop_user(b, u)),
    decreases b.len(),
{
    if b.len() == 0 {
    } else {
        let rest = b.drop_last();
        assert(registry_wf(rest)) by {
            assert(forall|i: int| 0 <= i < rest.len() ==> rest[i] == b[i]);
        }
        lemma_drop_user_wf(rest, u);
        lemma_drop_user_subset(rest, u);
        if b.last().0 != u {
            let f = drop_user(rest, u);
            assert forall|i: int, j: int|
                0 <= i < j < drop_user(b, u).len() implies (#[trigger] drop_user(b, u)[i]).0 != (
            #[trigger] drop_user(b, u)[j]).0 && drop_user(b, u)[i].1 != drop_user(b, u)[j].1 by {
                if j < f.len() {
                    assert(drop_user(b, u)[i] == f[i]);
                    assert(drop_user(b, u)[j] == f[j]);
                } else {
                    assert(drop_user(b, u)[j] == b.last());
                    assert(drop_user(b, u)[i] == f[i]);
                    let k = choose|k: int| 0 <= k < rest.len() && rest[k] == f[i];
                    assert(b[k] == f[i]);
                    assert(b[k].0 != b[b.len() - 1].0 && b[k].1 != b[b.len() - 1].1);
                }
            }
        }
    }
}

/// Dropping a session's binding keeps the registry well-formed.
pub proof fn lemma_drop_session_wf(b: Seq<PairView>, s: Seq<char>)
    requires
        registry_wf(b),
    ensures
        registry_wf(drop_session(b, s)),
    decreases b.len(),
{
    if b.len() == 0 {
    } else {
        let rest = b.drop_last();
        assert(registry_wf(rest)) by {
            assert(forall|i: int| 0 <= i < rest.len() ==> rest[i] == b[i]);
        }
        lemma_drop_session_wf(rest, s);
        lemma_drop_session_subset(rest, s);
        if b.last().1 != s {
            let f = drop_session(rest, s);
            assert forall|i: int, j: int|
                0 <= i < j < drop_session(b, s).len() implies (#[trigger] drop_session(b, s)[i]).0
                != (#[trigger] drop_session(b, s)[j]).0 && drop_session(b, s)[i].1
                != drop_session(b, s)[j].1 by {
                if j < f.len() {
                    assert(drop_session(b, s)[i] == f[i]);
                    assert(drop_session(b, s)[j] == f[j]);
                } else {
                    assert(drop_session(b, s)[j] == b.last());
                    assert(drop_session(b, s)[i] == f[i]);
                    let k = choose|k: int| 0 <= k < rest.len() && rest[k] == f[i];
                    assert(b[k] == f[i]);
                    assert(b[k].0 != b[b.len() - 1].0 && b[k].1 != b[b.len() - 1].1);
                }
            }
        }
    }
}

/// The session ids of all bindings, in binding order.
pub open spec fn sessions_of(b: Seq<PairView>) -> Seq<Seq<char>> {
    Seq::new(b.len(), |i: int| b[i].1)
}

/// Well-formedness: each user and each session occurs in at most one
/// binding.
pub open spec fn registry_wf(b: Seq<PairView>) -> bool {
    forall|i: int, j: int|
        0 <= i < j < b.len() ==> (#[trigger] b[i]).0 != (#[trigger] b[j]).0 && b[i].1 != b[j].1
}

/// A found binding in a well-formed registry is the binding the spec-level
/// lookups denote.
pub proof fn lemma_binding_at(b: Seq<PairView>, k: int)
    requires
        registry_wf(b),
        0 <= k < b.len(),
    ensures
        user_bound(b, b[k].0),
        session_bound(b, b[k].1),
        session_of_user(b, b[k].0) == b[k].1,
        user_of_session(b, b[k].1) == b[k].0,
{
    assert(user_bound(b, b[k].0));
    assert(session_bound(b, b[k].1));
    let i = choose|i: int| 0 <= i < b.len() && b[i].0 == b[k].0;
    if i < k {
        assert(b[i].0 != b[k].0);
    }
    if k < i {
        assert(b[k].0 != b[i].0);
    }
    let j = choose|j: int| 0 <= j < b.len() && b[j].1 == b[k].1;
    if j < k {
        assert(b[j].1 != b[k].1);
    }
    if k < j {
        assert(b[k].1 != b[j].1);
    }
}

/// Binding a user to a session preserves well-formedness of the registry.
pub proof fn lemma_bind_wf(b: Seq<PairView>, u: Seq<char>, s: Seq<char>)
    requires
        registry_wf(b),
    ensures
        registry_wf(drop_session(drop_user(b, u), s).push((u, s))),
{
    let d1 = drop_user(b, u);
    let d2 = drop_session(d1, s);
    lemma_drop_user_wf(b, u);
    lemma_drop_session_wf(d1, s);
    lemma_drop_user_subset(b, u);
    lemma_drop_session_subset(d1, s);
    let pushed = d2.push((u, s));
    assert forall|i: int, j: int|
        0 <= i < j < pushed.len() implies (#[trigger] pushed[i]).0 != (#[trigger] pushed[j]).0
        && pushed[i].1 != pushed[j].1 by {
        if j == pushed.len() - 1 {
            assert(pushed[i] == d2[i]);
            assert(d1.contains(d2[i]) && d2[i].1 != s);
            let k = choose|k: int| 0 <= k < d1.len() && d1[k] == d2[i];
            assert(d1[k].0 != u);
        } else {
            assert(pushed[i] == d2[i]);
            assert(pushed[j] == d2[j]);
        }
    }
}

/// The registry of user-to-session bindings.
pub struct SessionRegistry {
    bindings: Vec<(UserId, SessionId)>,
}

impl View for SessionRegistry {
    type V = Seq<PairView>;

    closed spec fn view(&self) -> Seq<PairView> {
        pairs_view(self.bindings@)
    }
}

impl SessionRegistry {
    /// An empty registry.
    pub fn new() -> (r: Self)
        ensures
            r@ == Seq::<PairView>::empty(),
    {
        let r = SessionRegistry { bindings: Vec::new() };
        proof {
            assert(r@ =~= Seq::<PairView>::empty());
        }
        r
    }

    /// Binds a user to a session.  Any prior binding of either the user or
    /// the session is displaced first.
    pub fn bind(&mut self, user_id: UserId, session_id: SessionId)
        ensures
            final(self)@ == drop_session(drop_user(old(self)@, user_id@), session_id@).push(
                (user_id@, session_id@),
            ),
    {
        retain_first_not(&mut self.bindings, &user_id);
        retain_second_not(&mut self.bindings, &session_id);
        self.bindings.push((user_id, session_id));
        proof {
            assert(self@ =~= pairs_view(self.bindings@.drop_last()).push(
                (self.bindings@.last().0@, self.bindings@.last().1@),
            ));
        }
    }

    /// Removes whichever binding names this user, if any.
    pub fn unbind_by_user(&mut self, user_id: &UserId)
        ensures
            final(self)@ == drop_user(old(self)@, user_id@),
    {
        retain_first_not(&mut self.bindings, user_id);
    }

    /// Removes whichever binding names this session, if any.
    pub fn unbind_by_session(&mut self, session_id: &SessionId)
        ensures
            final(self)@ == drop_session(old(self)@, session_id@),
    {
        retain_second_not(&mut self.bindings, session_id);
    }

    /// The session a user is bound to, if any.
    pub fn session_of(&self, user_id: &UserId) -> (r: Option<&SessionId>)
        requires
            registry_wf(self@),
        ensures
            r is Some <==> user_bound(self@, user_id@),
            r matches Some(s) ==> s@ == session_of_user(self@, user_id@),
    {
        let n: usize = self.bindings.len();
        let mut i: usize = 0;
        while i < n
            invariant
                n == self.bindings@.len(),
                registry_wf(self@),
                0 <= i <= n,
                forall|j: int| 0 <= j < i ==> (#[trigger] self@[j]).0 != user_id@,
            decreases n - i,
        {
            if string_eq(&self.bindings[i].0, user_id) {
                proof {
                    assert(self@[i as int].0 == user_id@);
                    lemma_binding_at(self@, i as int);
                }
                return Some(&self.bindings[i].1);
            }
            i += 1;
        }
        None
    }

    /// The user a session is bound to, if any.
    pub fn user_of(&self, session_id: &SessionId) -> (r: Option<&UserId>)
        requires
            registry_wf(self@),
        ensures
            r is Some <==> session_bound(self@, session_id@),
            r matches Some(u) ==> u@ == user_of_session(self@, session_id@),
    {
        let n: usize = self.bindings.len();
        let mut i: usize = 0;
        while i < n
            invariant
                n == self.bindings@.len(),
                registry_wf(self@),
                0 <= i <= n,
                forall|j: int| 0 <= j < i ==> (#[trigger] self@[j]).1 != session_id@,
            decreases n - i,
        {
            if string_eq(&self.bindings[i].1, session_id) {
                proof {
                    assert(self@[i as int].1 == session_id@);
                    lemma_binding_at(self@, i as int);
                }
                return Some(&self.bindings[i].0);
            }
            i += 1;
        }
        None
    }

    /// The session ids of all current bindings.
    pub fn all_sessions(&self) -> (r: Vec<SessionId>)
        ensures
            r.deep_view() == sessions_of(self@),
    {
        let n: usize = self.bindings.len();
        let mut r: Vec<SessionId> = Vec::new();
        let mut i: usize = 0;
        while i < n
            invariant
                n == self.bindings@.len(),
                0 <= i <= n,
                r.deep_view() =~= sessions_of(self@.subrange(0, i as int)),
            decreases n - i,
        {
            proof {
                assert(r.deep_view().len() == sessions_of(self@.subrange(0, i as int)).len());
                assert(sessions_of(self@.subrange(0, i as int)).len() == i);
                assert(r@.len() == i);
            }
            let ghost prev = r.deep_view();
            r.push(self.bindings[i].1.clone());
            proof {
                assert(r@.len() == i + 1);
                assert(r@[i as int]@ == self@[i as int].1);
                assert forall|j: int|
                    0 <= j < i + 1 implies r.deep_view()[j] == sessions_of(
                    self@.subrange(0, i + 1),
                )[j] by {
                    assert(self@.subrange(0, i + 1)[j] == self@[j]);
                    assert(sessions_of(self@.subrange(0, i + 1))[j] == self@[j].1);
                    assert(r.deep_view()[j] == r@[j]@);
                    if j < i {
                        assert(prev[j] == r@[j]@);
                        assert(self@.subrange(0, i as int)[j] == self@[j]);
                        assert(prev[j] == sessions_of(self@.subrange(0, i as int))[j]);
                        assert(sessions_of(self@.subrange(0, i as int))[j] == self@[j].1);
                    }
                }
                assert(r.deep_view() =~= sessions_of(self@.subrange(0, i + 1)));
            }
            i += 1;
        }
        proof {
            assert(self@.subrange(0, self@.len() as int) == self@);
        }
        r
    }

    /// Whether any user currently has a session.
    pub fn any_bound(&self) -> (r: bool)
        ensures
            r == (self@.len() > 0),
    {
        self.bindings.len() > 0
    }

    /// Whether a user currently has a session.
    pub fn is_online(&self, user_id: &UserId) -> (r: bool)
        ensures
            r == user_bound(self@, user_id@),
    {
        let n: usize = self.bindings.len();
        let mut i: usize = 0;
        while i < n
            invariant
                n == self.bindings@.len(),
                0 <= i <= n,
                forall|j: int| 0 <= j < i ==> (#[trigger] self@[j]).0 != user_id@,
            decreases n - i,
        {
            if string_eq(&self.bindings[i].0, user_id) {
                assert(self@[i as int].0 == user_id@);
                return true;
            }
            i += 1;
        }
        false
    }
}

/// Keeps every binding whose user differs from the given one.
fn retain_first_not(v: &mut Vec<(UserId, SessionId)>, u: &UserId)
    ensures
        pairs_view(final(v)@) == drop_user(pairs_view(old(v)@), u@),
{
    let n: usize = v.len();
    let mut kept: Vec<(UserId, SessionId)> = Vec::new();
    let mut i: usize = 0;
    while i < n
        invariant
            n == v@.len(),
            v@ == old(v)@,
            0 <= i <= n,
            pairs_view(kept@) == drop_user(pairs_view(v@.subrange(0, i as int)), u@),
        decreases n - i,
    {
        let keep = !string_eq(&v[i].0, u);
        let ghost prev = pairs_view(kept@);
        if keep {
            let first = v[i].0.clone();
            let second = v[i].1.clone();
            kept.push((first, second));
            proof {
                assert(pairs_view(kept@) =~= prev.push((v@[i as int].0@, v@[i as int].1@)));
            }
        }
        proof {
            let sub1 = pairs_view(v@.subrange(0, i + 1));
            assert(sub1.drop_last() =~= pairs_view(v@.subrange(0, i as int)));
            assert(sub1.last() == (v@[i as int].0@, v@[i as int].1@));
            assert(pairs_view(kept@) == drop_user(sub1, u@));
        }
        i += 1;
    }
    proof {
        assert(v@.subrange(0, v@.len() as int) == v@);
    }
    *v = kept;
}

/// Keeps every binding whose session differs from the given one.
fn retain_second_not(v: &mut Vec<(UserId, SessionId)>, s: &SessionId)
    ensures
        pairs_view(final(v)@) == drop_session(pairs_view(old(v)@), s@),
{
    let n: usize = v.len();
    let mut kept: Vec<(UserId, SessionId)> = Vec::new();
    let mut i: usize = 0;
    while i < n
        invariant
            n == v@.len(),
            v@ == old(v)@,
            0 <= i <= n,
            pairs_view(kept@) == drop_session(pairs_view(v@.subrange(0, i as int)), s@),
        decreases n - i,
    {
        let keep = !string_eq(&v[i].1, s);
        let ghost prev = pairs_view(kept@);
        if keep {
            let first = v[i].0.clone();
            let second = v[i].1.clone();
            kept.push((first, second));
            proof {
                assert(pairs_view(kept@) =~= prev.push((v@[i as int].0@, v@[i as int].1@)));
            }
        }
        proof {
            let sub1 = pairs_view(v@.subrange(0, i + 1));
            assert(sub1.drop_last() =~= pairs_view(v@.subrange(0, i as int)));
            assert(sub1.last() == (v@[i as int].0@, v@[i as int].1@));
            assert(pairs_view(kept@) == drop_session(sub1, s@));
        }
        i += 1;
    }
    proof {
        assert(v@.subrange(0, v@.len() as int) == v@);
    }
    *v = kept;
}

} // verus!
