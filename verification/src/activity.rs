use vstd::prelude::*;
use crate::net::MacAddr;

verus! {

/// Per-target bookkeeping: when the target was last active, how many proxy
/// sessions are live, and when wake and shutdown were last attempted.
#[derive(Debug, Clone, Copy, PartialEq, Eq)]
pub struct TargetActivity {
    pub last_activity: u64,
    pub live_sessions: u64,
    pub last_wake_attempt: Option<u64>,
    pub last_shutdown_attempt: Option<u64>,
}

pub open spec fn max_u64(a: u64, b: u64) -> u64 {
    if a >= b {
        a
    } else {
        b
    }
}

/// The entry a target starts with when first referenced at instant `now`.
pub open spec fn fresh_activity(now: u64) -> TargetActivity {
    TargetActivity {
        last_activity: now,
        live_sessions: 0,
        last_wake_attempt: None,
        last_shutdown_attempt: None,
    }
}

/// How many live sessions in `ss` belong to the target with bytes `mac`.
pub open spec fn count_mac(ss: Seq<(MacAddr, u64)>, mac: Seq<u8>) -> nat
    decreases ss.len(),
{
    if ss.len() == 0 {
        0
    } else {
        count_mac(ss.drop_last(), mac) + (if ss.last().0.bytes() == mac {
            1nat
        } else {
            0nat
        })
    }
}

proof fn lemma_count_le_len(ss: Seq<(MacAddr, u64)>, mac: Seq<u8>)
    ensures
        count_mac(ss, mac) <= ss.len(),
    decreases ss.len(),
{
    if ss.len() > 0 {
        lemma_count_le_len(ss.drop_last(), mac);
    }
}

proof fn lemma_count_zero(ss: Seq<(MacAddr, u64)>, mac: Seq<u8>)
    requires
        forall|i: int| 0 <= i < ss.len() ==> ss[i].0.bytes() != mac,
    ensures
        count_mac(ss, mac) == 0,
    decreases ss.len(),
{
    if ss.len() > 0 {
        lemma_count_zero(ss.drop_last(), mac);
    }
}

proof fn lemma_count_push(ss: Seq<(MacAddr, u64)>, e: (MacAddr, u64), mac: Seq<u8>)
    ensures
        count_mac(ss.push(e), mac) == count_mac(ss, mac) + (if e.0.bytes() == mac {
            1nat
        } else {
            0nat
        }),
{
    assert(ss.push(e).drop_last() =~= ss);
    assert(ss.push(e).last() == e);
}

proof fn lemma_count_remove(ss: Seq<(MacAddr, u64)>, i: int, mac: Seq<u8>)
    requires
        0 <= i < ss.len(),
    ensures
        count_mac(ss.remove(i), mac) == count_mac(ss, mac) - (if ss[i].0.bytes() == mac {
            1nat
        } else {
            0nat
        }),
    decreases ss.len(),
{
    if i == ss.len() - 1 {
        assert(ss.remove(i) =~= ss.drop_last());
    } else {
        assert(ss.remove(i).drop_last() =~= ss.drop_last().remove(i));
        assert(ss.remove(i).last() == ss.last());
        lemma_count_remove(ss.drop_last(), i, mac);
    }
}

/// The process-wide activity tracker, keyed by hardware address.
/// It also owns the set of live session tokens, so that the per-target
/// counter provably equals the number of live sessions of that target.
pub struct Tracker {
    entries: Vec<(MacAddr, TargetActivity)>,
    sessions: Vec<(MacAddr, u64)>,
    next_token: u64,
}

impl Tracker {
    pub closed spec fn entries_seq(self) -> Seq<(MacAddr, TargetActivity)> {
        self.entries@
    }

    pub closed spec fn sessions_seq(self) -> Seq<(MacAddr, u64)> {
        self.sessions@
    }

    pub closed spec fn next_token_spec(self) -> u64 {
        self.next_token
    }

    /// Whether the target has ever been referenced.
    pub open spec fn has_entry(self, mac: Seq<u8>) -> bool {
        exists|i: int|
            0 <= i < self.entries_seq().len() && #[trigger] self.entries_seq()[i].0.bytes() == mac
    }

    pub open spec fn entry_index(self, mac: Seq<u8>) -> int {
        choose|i: int|
            0 <= i < self.entries_seq().len() && #[trigger] self.entries_seq()[i].0.bytes() == mac
    }

    /// The target's bookkeeping entry (meaningful when `has_entry` holds).
    pub open spec fn activity(self, mac: Seq<u8>) -> TargetActivity {
        self.entries_seq()[self.entry_index(mac)].1
    }

    /// The number of live sessions whose target is `mac`.
    pub open spec fn live_count(self, mac: Seq<u8>) -> nat {
        count_mac(self.sessions_seq(), mac)
    }

    pub open spec fn wf(self) -> bool {
        let es = self.entries_seq();
        let ss = self.sessions_seq();
        &&& forall|i: int, j: int|
            0 <= i < j < es.len() ==> #[trigger] es[i].0.bytes() != #[trigger] es[j].0.bytes()
        &&& forall|i: int, j: int|
            0 <= i < j < ss.len() ==> #[trigger] ss[i].1 != #[trigger] ss[j].1
        &&& forall|i: int| 0 <= i < ss.len() ==> #[trigger] ss[i].1 < self.next_token_spec()
        &&& forall|i: int| 0 <= i < ss.len() ==> self.has_entry(#[trigger] ss[i].0.bytes())
        &&& forall|i: int|
            0 <= i < es.len() ==> #[trigger] es[i].1.live_sessions == count_mac(
                ss,
                es[i].0.bytes(),
            )
        &&& ss.len() <= self.next_token_spec()
    }

    /// With the invariant, the chosen entry index is the only one for a MAC.
    proof fn lemma_index_unique(self, mac: Seq<u8>, i: int)
        requires
            self.wf(),
            0 <= i < self.entries_seq().len(),
            self.entries_seq()[i].0.bytes() == mac,
        ensures
            self.entry_index(mac) == i,
            self.has_entry(mac),
    {
        assert(self.has_entry(mac));
        let j = self.entry_index(mac);
        assert(0 <= j < self.entries_seq().len() && self.entries_seq()[j].0.bytes() == mac);
        if i < j {
            assert(false);
        } else if j < i {
            assert(false);
        }
    }

    pub fn new() -> (t: Tracker)
        ensures
            t.wf(),
            forall|m: Seq<u8>| !t.has_entry(m),
            t.sessions_seq() == Seq::<(MacAddr, u64)>::empty(),
    {
        let t = Tracker { entries: Vec::new(), sessions: Vec::new(), next_token: 0 };
        proof {
            assert(t.sessions_seq() =~= Seq::<(MacAddr, u64)>::empty());
        }
        t
    }

    fn locate(&self, mac: &MacAddr) -> (r: Option<usize>)
        ensures
            r is Some <==> self.has_entry(mac.bytes()),
            r is Some ==> 0 <= r->0 < self.entries_seq().len()
                && self.entries_seq()[r->0 as int].0.bytes() == mac.bytes(),
    {
        let mut i: usize = 0;
        let n = self.entries.len();
        while i < n
            invariant
                0 <= i <= n,
                n == self.entries_seq().len(),
                forall|j: int| 0 <= j < i ==> #[trigger] self.entries_seq()[j].0.bytes() != mac.bytes(),
            decreases n - i,
        {
            if self.entries[i].0.same(mac) {
                return Some(i);
            }
            i += 1;
        }
        None
    }

    /// Finds the target's entry, creating a fresh one on first reference.
    fn ensure_entry(&mut self, mac: &MacAddr, now: u64) -> (i: usize)
        requires
            old(self).wf(),
        ensures
            final(self).wf(),
            0 <= i < final(self).entries_seq().len(),
            final(self).entries_seq()[i as int].0.bytes() == mac.bytes(),
            final(self).entry_index(mac.bytes()) == i,
            final(self).has_entry(mac.bytes()),
            final(self).activity(mac.bytes()) == (if old(self).has_entry(mac.bytes()) {
                old(self).activity(mac.bytes())
            } else {
                fresh_activity(now)
            }),
            forall|m: Seq<u8>|
                m != mac.bytes() ==> (#[trigger] final(self).has_entry(m) == old(self).has_entry(m)
                    && (old(self).has_entry(m) ==> final(self).activity(m) == old(self).activity(
                    m,
                ))),
            final(self).sessions_seq() == old(self).sessions_seq(),
            final(self).next_token_spec() == old(self).next_token_spec(),
    {
        match self.locate(mac) {
            Some(i) => {
                proof {
                    self.lemma_index_unique(mac.bytes(), i as int);
                    assert forall|m: Seq<u8>|
                        m != mac.bytes() && old(self).has_entry(m) implies final(self).activity(m)
                        == old(self).activity(m) by {}
                }
                i
            }
            None => {
                let i = self.entries.len();
                let entry = TargetActivity {
                    last_activity: now,
                    live_sessions: 0,
                    last_wake_attempt: None,
                    last_shutdown_attempt: None,
                };
                self.entries.push((*mac, entry));
                proof {
                    let es = self.entries_seq();
                    let old_es = old(self).entries_seq();
                    assert(es =~= old_es.push((*mac, entry)));
                    assert forall|m: Seq<u8>| #[trigger] old(self).has_entry(m) implies self.has_entry(m) by {
                        let j = old(self).entry_index(m);
                        assert(es[j].0.bytes() == m);
                    }
                    lemma_count_zero(self.sessions_seq(), mac.bytes());
                    assert(self.wf()) by {
                        assert forall|a: int, b: int|
                            0 <= a < b < es.len() implies #[trigger] es[a].0.bytes() != #[trigger] es[b].0.bytes() by {
                            if b == es.len() - 1 {
                                assert(!old(self).has_entry(mac.bytes()));
                                assert(old_es[a].0.bytes() != mac.bytes());
                            }
                        }
                        assert forall|q: int|
                            0 <= q < self.sessions_seq().len() implies self.has_entry(
                            #[trigger] self.sessions_seq()[q].0.bytes()) by {
                            assert(old(self).has_entry(self.sessions_seq()[q].0.bytes()));
                        }
                    }
                    self.lemma_index_unique(mac.bytes(), i as int);
                    assert forall|m: Seq<u8>|
                        m != mac.bytes() implies (#[trigger] self.has_entry(m) == old(self).has_entry(m)
                            && (old(self).has_entry(m) ==> self.activity(m) == old(self).activity(m))) by {
                        if self.has_entry(m) {
                            let j = self.entry_index(m);
                            assert(es[j].0.bytes() == m);
                            assert(j != i);
                            assert(old_es[j].0.bytes() == m);
                            assert(old(self).has_entry(m));
                        }
                        if old(self).has_entry(m) {
                            let j = old(self).entry_index(m);
                            assert(es[j].0.bytes() == m);
                            self.lemma_index_unique(m, j);
                        }
                    }
                }
                i
            }
        }
    }

    /// Stamps activity now: the recorded instant never
    /// moves backwards.
    pub fn touch(&mut self, mac: &MacAddr, now: u64)
        requires
            old(self).wf(),
        ensures
            final(self).wf(),
            final(self).has_entry(mac.bytes()),
            final(self).activity(mac.bytes()) == (if old(self).has_entry(mac.bytes()) {
                TargetActivity {
                    last_activity: max_u64(old(self).activity(mac.bytes()).last_activity, now),
                    ..old(self).activity(mac.bytes())
                }
            } else {
                fresh_activity(now)
            }),
            old(self).has_entry(mac.bytes()) ==> final(self).activity(
                mac.bytes(),
            ).last_activity >= old(self).activity(mac.bytes()).last_activity,
            forall|m: Seq<u8>|
                m != mac.bytes() ==> (#[trigger] final(self).has_entry(m) == old(self).has_entry(m)
                    && (old(self).has_entry(m) ==> final(self).activity(m) == old(self).activity(
                    m,
                ))),
            final(self).sessions_seq() == old(self).sessions_seq(),
    {
        let i = self.ensure_entry(mac, now);
        let ghost mid = *self;
        let e = &mut self.entries[i];
        if e.1.last_activity < now {
            e.1.last_activity = now;
        }
        proof {
            self.commit_entry_update(mid, i as int, mac.bytes());
        }
    }

    /// After writing entry `i` (same MAC, same `live_sessions`), the
    /// invariant and the frame for all other targets still hold.
    proof fn commit_entry_update(self, mid: Tracker, i: int, mac: Seq<u8>)
        requires
            mid.wf(),
            0 <= i < mid.entries_seq().len(),
            mid.entries_seq()[i].0.bytes() == mac,
            self.entries_seq().len() == mid.entries_seq().len(),
            self.entries_seq()[i].0 == mid.entries_seq()[i].0,
            self.entries_seq()[i].1.live_sessions == mid.entries_seq()[i].1.live_sessions,
            forall|j: int|
                0 <= j < mid.entries_seq().len() && j != i ==> #[trigger] self.entries_seq()[j]
                    == mid.entries_seq()[j],
            self.sessions_seq() == mid.sessions_seq(),
            self.next_token_spec() == mid.next_token_spec(),
        ensures
            self.wf(),
            self.has_entry(mac),
            self.entry_index(mac) == i,
            self.activity(mac) == self.entries_seq()[i].1,
            forall|m: Seq<u8>|
                m != mac ==> (#[trigger] self.has_entry(m) == mid.has_entry(m) && (mid.has_entry(m)
                    ==> self.activity(m) == mid.activity(m))),
    {
        let es = self.entries_seq();
        let old_es = mid.entries_seq();
        assert forall|a: int| 0 <= a < es.len() implies #[trigger] es[a].0 == old_es[a].0 by {}
        assert(self.wf()) by {
            assert forall|q: int|
                0 <= q < self.sessions_seq().len() implies self.has_entry(
                #[trigger] self.sessions_seq()[q].0.bytes()) by {
                assert(mid.has_entry(self.sessions_seq()[q].0.bytes()));
                let j = mid.entry_index(self.sessions_seq()[q].0.bytes());
                assert(es[j].0.bytes() == self.sessions_seq()[q].0.bytes());
            }
            assert forall|j: int|
                0 <= j < es.len() implies #[trigger] es[j].1.live_sessions == count_mac(
                self.sessions_seq(),
                es[j].0.bytes(),
            ) by {}
        }
        self.lemma_index_unique(mac, i);
        assert forall|m: Seq<u8>|
            m != mac implies (#[trigger] self.has_entry(m) == mid.has_entry(m) && (mid.has_entry(m)
                ==> self.activity(m) == mid.activity(m))) by {
            if self.has_entry(m) {
                let j = self.entry_index(m);
                assert(old_es[j].0.bytes() == m);
                assert(mid.has_entry(m));
            }
            if mid.has_entry(m) {
                let j = mid.entry_index(m);
                assert(es[j].0.bytes() == m);
                self.lemma_index_unique(m, j);
                assert(j != i);
            }
        }
    }

    /// Stamps a wake attempt.
    pub fn note_wake(&mut self, mac: &MacAddr, now: u64)
        requires
            old(self).wf(),
        ensures
            final(self).wf(),
            final(self).has_entry(mac.bytes()),
            final(self).activity(mac.bytes()) == (TargetActivity {
                last_wake_attempt: Some(now),
                ..(if old(self).has_entry(mac.bytes()) {
                    old(self).activity(mac.bytes())
                } else {
                    fresh_activity(now)
                })
            }),
            forall|m: Seq<u8>|
                m != mac.bytes() ==> (#[trigger] final(self).has_entry(m) == old(self).has_entry(m)
                    && (old(self).has_entry(m) ==> final(self).activity(m) == old(self).activity(
                    m,
                ))),
            final(self).sessions_seq() == old(self).sessions_seq(),
    {
        let i = self.ensure_entry(mac, now);
        let ghost mid = *self;
        let e = &mut self.entries[i];
        e.1.last_wake_attempt = Some(now);
        proof {
            self.commit_entry_update(mid, i as int, mac.bytes());
        }
    }

    /// Stamps a shutdown attempt.
    pub fn note_shutdown(&mut self, mac: &MacAddr, now: u64)
        requires
            old(self).wf(),
        ensures
            final(self).wf(),
            final(self).has_entry(mac.bytes()),
            final(self).activity(mac.bytes()) == (TargetActivity {
                last_shutdown_attempt: Some(now),
                ..(if old(self).has_entry(mac.bytes()) {
                    old(self).activity(mac.bytes())
                } else {
                    fresh_activity(now)
                })
            }),
            forall|m: Seq<u8>|
                m != mac.bytes() ==> (#[trigger] final(self).has_entry(m) == old(self).has_entry(m)
                    && (old(self).has_entry(m) ==> final(self).activity(m) == old(self).activity(
                    m,
                ))),
            final(self).sessions_seq() == old(self).sessions_seq(),
    {
        let i = self.ensure_entry(mac, now);
        let ghost mid = *self;
        let e = &mut self.entries[i];
        e.1.last_shutdown_attempt = Some(now);
        proof {
            self.commit_entry_update(mid, i as int, mac.bytes());
        }
    }

    /// Registers a live session: bumps the
    /// counter, stamps activity, and hands out a fresh token.
    pub fn open_session(&mut self, mac: &MacAddr, now: u64) -> (token: u64)
        requires
            old(self).wf(),
            old(self).next_token_spec() < u64::MAX,
        ensures
            final(self).wf(),
            final(self).has_entry(mac.bytes()),
            final(self).live_count(mac.bytes()) == old(self).live_count(mac.bytes()) + 1,
            final(self).activity(mac.bytes()).live_sessions == old(self).live_count(mac.bytes())
                + 1,
            final(self).activity(mac.bytes()).last_activity == max_u64(
                (if old(self).has_entry(mac.bytes()) {
                    old(self).activity(mac.bytes()).last_activity
                } else {
                    now
                }),
                now,
            ),
            old(self).has_entry(mac.bytes()) ==> final(self).activity(
                mac.bytes(),
            ).last_activity >= old(self).activity(mac.bytes()).last_activity,
            final(self).sessions_seq() == old(self).sessions_seq().push((*mac, token)),
            forall|m: Seq<u8>|
                m != mac.bytes() ==> #[trigger] final(self).has_entry(m) == old(self).has_entry(m),
            forall|m: Seq<u8>|
                m != mac.bytes() && old(self).has_entry(m) ==> #[trigger] final(self).activity(m)
                    == old(self).activity(m),
            forall|m: Seq<u8>|
                m != mac.bytes() ==> #[trigger] final(self).live_count(m) == old(self).live_count(
                    m,
                ),
    {
        let i = self.ensure_entry(mac, now);
        let ghost s1 = *self;
        let token = self.next_token;
        self.next_token = token + 1;
        self.sessions.push((*mac, token));
        proof {
            assert(self.sessions_seq() =~= s1.sessions_seq().push((*mac, token)));
            s1.lemma_index_unique(mac.bytes(), i as int);
            lemma_count_le_len(s1.sessions_seq(), mac.bytes());
        }
        let prev = self.entries[i].1;
        let e = &mut self.entries[i];
        e.1.live_sessions = prev.live_sessions + 1;
        if e.1.last_activity < now {
            e.1.last_activity = now;
        }
        proof {
            let es = self.entries_seq();
            let ss = self.sessions_seq();
            assert forall|a: int| 0 <= a < es.len() implies #[trigger] es[a].0
                == s1.entries_seq()[a].0 by {}
            assert(ss =~= s1.sessions_seq().push((*mac, token)));
            assert(self.wf()) by {
                assert forall|a: int, b: int|
                    0 <= a < b < ss.len() implies #[trigger] ss[a].1 != #[trigger] ss[b].1 by {
                    if b == ss.len() - 1 {
                        assert(s1.sessions_seq()[a].1 < token);
                    }
                }
                assert forall|q: int|
                    0 <= q < ss.len() implies self.has_entry(#[trigger] ss[q].0.bytes()) by {
                    if q < ss.len() - 1 {
                        assert(s1.has_entry(ss[q].0.bytes()));
                        let j = s1.entry_index(ss[q].0.bytes());
                        assert(es[j].0.bytes() == ss[q].0.bytes());
                    } else {
                        assert(es[i as int].0.bytes() == ss[q].0.bytes());
                    }
                }
                assert forall|j: int|
                    0 <= j < es.len() implies #[trigger] es[j].1.live_sessions == count_mac(
                    ss,
                    es[j].0.bytes(),
                ) by {
                    lemma_count_push(s1.sessions_seq(), (*mac, token), es[j].0.bytes());
                    if j != i {
                        assert(es[j] == s1.entries_seq()[j]);
                        assert(es[j].0.bytes() != mac.bytes());
                    }
                }
            }
            self.lemma_index_unique(mac.bytes(), i as int);
            lemma_count_push(s1.sessions_seq(), (*mac, token), mac.bytes());
            assert(prev == s1.activity(mac.bytes()));
            assert forall|m: Seq<u8>|
                m != mac.bytes() implies #[trigger] self.has_entry(m) == old(self).has_entry(m) by {
                if self.has_entry(m) {
                    let j = self.entry_index(m);
                    assert(es[j].0.bytes() == m);
                    assert(s1.entries_seq()[j].0.bytes() == m);
                    assert(s1.has_entry(m));
                }
                if s1.has_entry(m) {
                    let j = s1.entry_index(m);
                    assert(es[j].0.bytes() == m);
                    assert(self.has_entry(m));
                }
                assert(s1.has_entry(m) == old(self).has_entry(m));
            }
            assert forall|m: Seq<u8>|
                m != mac.bytes() && old(self).has_entry(m) implies #[trigger] self.activity(m)
                    == old(self).activity(m) by {
                assert(s1.has_entry(m));
                let j = s1.entry_index(m);
                assert(s1.entries_seq()[j].0.bytes() == m);
                assert(es[j].0.bytes() == m);
                self.lemma_index_unique(m, j);
                assert(j != i);
                assert(es[j] == s1.entries_seq()[j]);
                assert(s1.activity(m) == old(self).activity(m));
            }
            assert forall|m: Seq<u8>|
                m != mac.bytes() implies #[trigger] self.live_count(m) == old(self).live_count(m) by {
                lemma_count_push(s1.sessions_seq(), (*mac, token), m);
                assert(count_mac(self.sessions_seq(), m) == count_mac(s1.sessions_seq(), m));
                assert(s1.sessions_seq() == old(self).sessions_seq());
            }
        }
        token
    }

    /// Ends a live session: removes the token,
    /// drops the counter, stamps activity. A token that is not live (already
    /// closed) leaves the tracker unchanged.
    pub fn close_session(&mut self, mac: &MacAddr, token: u64, now: u64) -> (closed: bool)
        requires
            old(self).wf(),
        ensures
            final(self).wf(),
            closed <==> exists|q: int|
                0 <= q < old(self).sessions_seq().len() && #[trigger] old(self).sessions_seq()[q]
                    == (*mac, token),
            !closed ==> *final(self) == *old(self),
            closed ==> final(self).live_count(mac.bytes()) == old(self).live_count(mac.bytes())
                - 1,
            closed ==> final(self).activity(mac.bytes()).live_sessions == old(self).live_count(
                mac.bytes(),
            ) - 1,
            closed ==> final(self).activity(mac.bytes()).last_activity == max_u64(
                old(self).activity(mac.bytes()).last_activity,
                now,
            ),
            closed ==> old(self).has_entry(mac.bytes()) && final(self).activity(
                mac.bytes(),
            ).last_activity >= old(self).activity(mac.bytes()).last_activity,
            forall|m: Seq<u8>|
                m != mac.bytes() ==> #[trigger] final(self).has_entry(m) == old(self).has_entry(m),
            forall|m: Seq<u8>|
                m != mac.bytes() && old(self).has_entry(m) ==> #[trigger] final(self).activity(m)
                    == old(self).activity(m),
            forall|m: Seq<u8>|
                m != mac.bytes() ==> #[trigger] final(self).live_count(m) == old(self).live_count(
                    m,
                ),
    {
        let n = self.sessions.len();
        let mut q: usize = 0;
        let mut found: Option<usize> = None;
        while q < n
            invariant
                0 <= q <= n,
                n == self.sessions_seq().len(),
                found is Some ==> 0 <= found->0 < n && self.sessions_seq()[found->0 as int] == (
                    *mac,
                    token,
                ),
                found is None ==> forall|t: int|
                    0 <= t < q ==> #[trigger] self.sessions_seq()[t] != (*mac, token),
            decreases n - q,
        {
            if found.is_none() {
                let s = &self.sessions[q];
                if s.1 == token && s.0.same(mac) {
                    found = Some(q);
                }
            }
            q += 1;
        }
        match found {
            None => {
                false
            }
            Some(qi) => {
                self.sessions.remove(qi);
                let ghost removed_ss = self.sessions_seq();
                proof {
                    assert(removed_ss =~= old(self).sessions_seq().remove(qi as int));
                    lemma_count_remove(old(self).sessions_seq(), qi as int, mac.bytes());
                    assert(old(self).has_entry(mac.bytes()));
                }
                // The session's target has an entry; its counter is positive.
                let i = match self.locate(mac) {
                    Some(i) => i,
                    None => {
                        proof {
                            assert(false);
                        }
                        0
                    }
                };
                proof {
                    assert(self.entries_seq() == old(self).entries_seq());
                    old(self).lemma_index_unique(mac.bytes(), i as int);
                    assert(old(self).entries_seq()[i as int].1.live_sessions == count_mac(
                        old(self).sessions_seq(),
                        mac.bytes(),
                    ));
                    lemma_count_remove(old(self).sessions_seq(), qi as int, mac.bytes());
                }
                let prev = self.entries[i].1;
                let e = &mut self.entries[i];
                e.1.live_sessions = prev.live_sessions - 1;
                if e.1.last_activity < now {
                    e.1.last_activity = now;
                }
                proof {
                    let es = self.entries_seq();
                    let ss = self.sessions_seq();
                    assert forall|a: int| 0 <= a < es.len() implies #[trigger] es[a].0
                        == old(self).entries_seq()[a].0 by {}
                    assert(self.wf()) by {
                        assert forall|a: int, b: int|
                            0 <= a < b < ss.len() implies #[trigger] ss[a].1 != #[trigger] ss[b].1 by {
                            let oss = old(self).sessions_seq();
                            let a0 = if a < qi { a } else { a + 1 };
                            let b0 = if b < qi { b } else { b + 1 };
                            assert(ss[a] == oss[a0] && ss[b] == oss[b0]);
                        }
                        assert forall|t: int|
                            0 <= t < ss.len() implies self.has_entry(#[trigger] ss[t].0.bytes()) by {
                            let oss = old(self).sessions_seq();
                            let t0 = if t < qi { t } else { t + 1 };
                            assert(ss[t] == oss[t0]);
                            assert(old(self).has_entry(oss[t0].0.bytes()));
                            let j = old(self).entry_index(oss[t0].0.bytes());
                            assert(es[j].0.bytes() == oss[t0].0.bytes());
                        }
                        assert forall|j: int|
                            0 <= j < es.len() implies #[trigger] es[j].1.live_sessions == count_mac(
                            ss,
                            es[j].0.bytes(),
                        ) by {
                            lemma_count_remove(old(self).sessions_seq(), qi as int, es[j].0.bytes());
                            if j != i {
                                assert(es[j] == old(self).entries_seq()[j]);
                                assert(es[j].0.bytes() != mac.bytes());
                            }
                        }
                    }
                    self.lemma_index_unique(mac.bytes(), i as int);
                    old(self).lemma_index_unique(mac.bytes(), i as int);
                    assert forall|m: Seq<u8>|
                        m != mac.bytes() implies #[trigger] self.has_entry(m) == old(self).has_entry(
                        m,
                    ) by {
                        if self.has_entry(m) {
                            let j = self.entry_index(m);
                            assert(es[j].0.bytes() == m);
                            assert(old(self).entries_seq()[j].0.bytes() == m);
                            assert(old(self).has_entry(m));
                        }
                        if old(self).has_entry(m) {
                            let j = old(self).entry_index(m);
                            assert(old(self).entries_seq()[j].0.bytes() == m);
                            assert(es[j].0.bytes() == m);
                            assert(self.has_entry(m));
                        }
                    }
                    assert forall|m: Seq<u8>|
                        m != mac.bytes() && old(self).has_entry(m) implies #[trigger] self.activity(m)
                            == old(self).activity(m) by {
                        let j = old(self).entry_index(m);
                        assert(old(self).entries_seq()[j].0.bytes() == m);
                        assert(es[j].0.bytes() == m);
                        self.lemma_index_unique(m, j);
                        assert(j != i);
                        assert(es[j] == old(self).entries_seq()[j]);
                    }
                    assert forall|m: Seq<u8>|
                        m != mac.bytes() implies #[trigger] self.live_count(m) == old(self).live_count(
                        m,
                    ) by {
                        lemma_count_remove(old(self).sessions_seq(), qi as int, m);
                        assert(old(self).sessions_seq()[qi as int].0.bytes() == mac.bytes());
                    }
                }
                true
            }
        }
    }

    /// Whether a fresh session token can still be handed out.
    pub fn can_open_session(&self) -> (r: bool)
        ensures
            r == (self.next_token_spec() < u64::MAX),
    {
        self.next_token < u64::MAX
    }

    /// A consistent copy of the target's entry for the Reaper.
    pub fn snapshot(&self, mac: &MacAddr) -> (r: Option<TargetActivity>)
        requires
            self.wf(),
        ensures
            r == (if self.has_entry(mac.bytes()) {
                Some(self.activity(mac.bytes()))
            } else {
                None::<TargetActivity>
            }),
    {
        match self.locate(mac) {
            Some(i) => {
                proof {
                    self.lemma_index_unique(mac.bytes(), i as int);
                }
                Some(self.entries[i].1)
            }
            None => None,
        }
    }

    /// The invariant the tracker maintains (spec I4): a target's counter is
    /// exactly the number of live sessions whose target it is.
    pub proof fn lemma_live_sessions_counts(self, mac: Seq<u8>)
        requires
            self.wf(),
        ensures
            self.has_entry(mac) ==> self.activity(mac).live_sessions == self.live_count(mac),
            !self.has_entry(mac) ==> self.live_count(mac) == 0,
    {
        if self.has_entry(mac) {
            let i = self.entry_index(mac);
            assert(self.entries_seq()[i].1.live_sessions == count_mac(self.sessions_seq(), mac));
        } else {
            assert forall|q: int|
                0 <= q < self.sessions_seq().len() implies #[trigger] self.sessions_seq()[q].0.bytes()
                != mac by {
                assert(self.has_entry(self.sessions_seq()[q].0.bytes()));
            }
            lemma_count_zero(self.sessions_seq(), mac);
        }
    }
}

} // verus!
