use vstd::prelude::*;

use crate::components::{Input, InputStatus};
use crate::config::MAX_PLAYERS;

verus! {

/// A local input was submitted twice for a frame that is already confirmed;
/// a programmer error, reported and otherwise ignored.
#[derive(Clone, Copy, Debug, PartialEq, Eq, Structural)]
pub struct DuplicateSubmission;

/// What became of a peer-reported input.
#[derive(Clone, Copy, Debug, PartialEq, Eq, Structural)]
pub enum ReceiveOutcome {
    /// The value is new and is now confirmed for that player and frame.
    Stored,
    /// The same value had already been confirmed: duplicate delivery,
    /// tolerated silently.
    DuplicateDelivery,
    /// A different value had already been confirmed: a protocol violation;
    /// the first-seen value wins.
    ConflictingInput,
    /// The player is disconnected; its input is permanently zero.
    Ignored,
}

/// Buffers confirmed inputs per player per frame, marks disconnected
/// players, and serves the best-available input table for any frame:
/// confirmed where known, a repeat-last-confirmed prediction otherwise,
/// zero for disconnected players.
///
/// The network-receive path only ever writes into this table; the simulation
/// reads it at one point per frame, so each read is a consistent snapshot of
/// the best known inputs.
pub struct InputSynchronizer {
    /// The local player's handle.
    pub local_handle: usize,
    /// `rows[p][f]` is the confirmed input of player `p` at frame `f`, if
    /// one has been received; rows grow on demand.
    pub rows: Vec<Vec<Option<u8>>>,
    /// Permanently disconnected players.
    pub disconnected: Vec<bool>,
}

impl InputSynchronizer {
    /// The number of input streams.
    pub open spec fn num_players(self) -> int {
        self.rows@.len() as int
    }

    pub open spec fn wf(self) -> bool {
        &&& 0 < self.rows@.len() <= MAX_PLAYERS
        &&& self.disconnected@.len() == self.rows@.len()
        &&& self.local_handle < self.rows@.len()
    }

    /// The confirmed input of a player at a frame, if any.
    pub open spec fn confirmed_at(self, p: int, f: int) -> Option<u8> {
        if 0 <= f < self.rows@[p]@.len() {
            self.rows@[p]@[f]
        } else {
            None
        }
    }

    /// Whether the entry of a player at a frame can never change again:
    /// it is confirmed, or the player is disconnected (and reads zero).
    pub open spec fn is_fixed(self, p: int, f: int) -> bool {
        self.confirmed_at(p, f) is Some || self.disconnected@[p]
    }

    /// Whether every player's entry at a frame is fixed.
    pub open spec fn frame_fixed(self, f: int) -> bool {
        forall|p: int| 0 <= p < self.num_players() ==> self.is_fixed(p, f)
    }

    /// Whether every frame below `n` is fixed: `n` is then at or below the
    /// confirmed frontier, and those frames are immutable.
    pub open spec fn prefix_fixed(self, n: int) -> bool {
        forall|f: int| 0 <= f < n ==> self.frame_fixed(f)
    }

    /// The greatest frame at or below `f` with a confirmed input, if any.
    pub open spec fn latest_confirmed(self, p: int, f: int) -> Option<int>
        decreases
            if f >= 0 {
                f + 1
            } else {
                0
            },
    {
        if f < 0 {
            None
        } else if self.confirmed_at(p, f) is Some {
            Some(f)
        } else {
            self.latest_confirmed(p, f - 1)
        }
    }

    /// The repeat-last-confirmed prediction basis: the value confirmed at
    /// the greatest frame at or below `f`, or zero if none exists yet.
    pub open spec fn pred_value(self, p: int, f: int) -> u8 {
        match self.latest_confirmed(p, f) {
            Some(g) => self.confirmed_at(p, g)->0,
            None => 0u8,
        }
    }

    /// The best-available input of a player for a frame: confirmed if known,
    /// else zero-and-Disconnected for a disconnected player, else the
    /// repeat-last-confirmed prediction.
    pub open spec fn input_for_model(self, p: int, f: int) -> (u8, InputStatus) {
        match self.confirmed_at(p, f) {
            Some(v) => (v, InputStatus::Confirmed),
            None => {
                if self.disconnected@[p] {
                    (0u8, InputStatus::Disconnected)
                } else {
                    (self.pred_value(p, f - 1), InputStatus::Predicted)
                }
            },
        }
    }

    /// The input byte the simulation obeys for a player at a frame.
    pub open spec fn eff_input(self, p: int, f: int) -> u8 {
        let pair = self.input_for_model(p, f);
        if pair.1 is Disconnected {
            0u8
        } else {
            pair.0
        }
    }

    /// The effective input bytes of a whole frame, player by player.
    pub open spec fn eff_row(self, f: int) -> Seq<u8> {
        Seq::new(self.num_players() as nat, |p: int| self.eff_input(p, f))
    }

    /// A fresh synchronizer: nothing confirmed, nobody disconnected.
    pub fn new(num_players: usize, local_handle: usize) -> (s: Self)
        requires
            0 < num_players <= MAX_PLAYERS,
            local_handle < num_players,
        ensures
            s.wf(),
            s.num_players() == num_players,
            s.local_handle == local_handle,
            forall|p: int, f: int| 0 <= p < num_players ==> s.confirmed_at(p, f) is None,
            forall|p: int| 0 <= p < num_players ==> !s.disconnected@[p],
    {
        let mut rows: Vec<Vec<Option<u8>>> = Vec::new();
        let mut disconnected: Vec<bool> = Vec::new();
        for i in 0..num_players
            invariant
                rows@.len() == i,
                disconnected@.len() == i,
                forall|p: int| 0 <= p < i ==> (#[trigger] rows@[p])@.len() == 0,
                forall|p: int| 0 <= p < i ==> !(#[trigger] disconnected@[p]),
        {
            rows.push(Vec::new());
            disconnected.push(false);
        }
        InputSynchronizer { local_handle, rows, disconnected }
    }

    /// Confirms a value for a player and frame, growing the row on demand.
    fn store(&mut self, player: usize, frame: u32, v: u8)
        requires
            old(self).wf(),
            player < old(self).num_players(),
        ensures
            final(self).wf(),
            final(self).num_players() == old(self).num_players(),
            final(self).local_handle == old(self).local_handle,
            final(self).disconnected@ == old(self).disconnected@,
            final(self).confirmed_at(player as int, frame as int) == Some(v),
            forall|p: int, f: int| 0 <= p < old(self).num_players() && !(p == player && f == frame)
                ==> final(self).confirmed_at(p, f) == old(self).confirmed_at(p, f),
    {
        let ghost orig = self.rows@[player as int]@;
        let mut row: Vec<Option<u8>> = Vec::new();
        let n = self.rows[player].len();
        for i in 0..n
            invariant
                n == self.rows@[player as int]@.len(),
                player < self.rows@.len(),
                orig == self.rows@[player as int]@,
                row@ == orig.take(i as int),
        {
            row.push(self.rows[player][i]);
            proof {
                assert(row@ =~= orig.take(i + 1));
            }
        }
        proof {
            assert(orig.take(n as int) =~= orig);
        }
        while row.len() <= frame as usize
            invariant
                row@.len() >= orig.len() || row@ == orig,
                forall|j: int| 0 <= j < orig.len() && j < row@.len() ==> row@[j] == orig[j],
                forall|j: int| orig.len() <= j < row@.len() ==> row@[j] is None,
            decreases frame as int + 1 - row@.len(),
        {
            row.push(None);
        }
        row.set(frame as usize, Some(v));
        self.rows.set(player, row);
        proof {
            assert(self.confirmed_at(player as int, frame as int) == Some(v));
            assert forall|p: int, f: int|
                0 <= p < old(self).num_players() && !(p == player && f == frame)
                implies self.confirmed_at(p, f) == old(self).confirmed_at(p, f) by {
                if p == player {
                    if 0 <= f < orig.len() {
                        assert(self.rows@[p]@[f] == orig[f]);
                    }
                }
            }
        }
    }

    /// Records the local player's input for a frame; fails with
    /// `DuplicateSubmission`, changing nothing, iff that frame is already
    /// confirmed for the local player.
    pub fn submit_local(&mut self, frame: u32, input: Input) -> (r: Result<
        (),
        DuplicateSubmission,
    >)
        requires
            old(self).wf(),
        ensures
            final(self).wf(),
            final(self).num_players() == old(self).num_players(),
            final(self).local_handle == old(self).local_handle,
            r is Err <==> old(self).confirmed_at(old(self).local_handle as int, frame as int)
                is Some,
            r is Err ==> *final(self) == *old(self),
            r is Ok ==> final(self).confirmed_at(old(self).local_handle as int, frame as int)
                == Some(input.inp),
            r is Ok ==> forall|p: int, f: int|
                0 <= p < old(self).num_players() && !(p == old(self).local_handle && f == frame)
                    ==> final(self).confirmed_at(p, f) == old(self).confirmed_at(p, f),
            final(self).disconnected@ == old(self).disconnected@,
            forall|p: int, f: int| 0 <= p < old(self).num_players() && old(self).confirmed_at(
                p,
                f,
            ) is Some ==> final(self).confirmed_at(p, f) == old(self).confirmed_at(p, f),
    {
        let h = self.local_handle;
        let already = (frame as usize) < self.rows[h].len() && self.rows[h][frame
            as usize].is_some();
        if already {
            return Err(DuplicateSubmission);
        }
        self.store(h, frame, input.inp);
        Ok(())
    }

    /// Records a peer-reported input for a player and frame. Once received,
    /// a value is immediately confirmed; a value confirmed earlier never
    /// changes, whatever arrives later (confirmed immutability): duplicates
    /// are tolerated, conflicting re-deliveries lose to the first-seen
    /// value, and input for a disconnected player is ignored.
    pub fn receive_remote(&mut self, player: usize, frame: u32, input: Input) -> (r:
        ReceiveOutcome)
        requires
            old(self).wf(),
            player < old(self).num_players(),
        ensures
            final(self).wf(),
            final(self).num_players() == old(self).num_players(),
            final(self).local_handle == old(self).local_handle,
            final(self).disconnected@ == old(self).disconnected@,
            // confirmed immutability: a confirmed entry never changes
            forall|p: int, f: int| 0 <= p < old(self).num_players() && old(self).confirmed_at(
                p,
                f,
            ) is Some ==> final(self).confirmed_at(p, f) == old(self).confirmed_at(p, f),
            r == ReceiveOutcome::Ignored <==> old(self).disconnected@[player as int],
            r == ReceiveOutcome::DuplicateDelivery <==> !old(self).disconnected@[player as int]
                && old(self).confirmed_at(player as int, frame as int) == Some(input.inp),
            r == ReceiveOutcome::ConflictingInput <==> !old(self).disconnected@[player as int]
                && old(self).confirmed_at(player as int, frame as int) is Some && old(
                self,
            ).confirmed_at(player as int, frame as int) != Some(input.inp),
            r == ReceiveOutcome::Stored <==> !old(self).disconnected@[player as int] && old(
                self,
            ).confirmed_at(player as int, frame as int) is None,
            r != ReceiveOutcome::Stored ==> *final(self) == *old(self),
            r == ReceiveOutcome::Stored ==> final(self).confirmed_at(player as int, frame as int)
                == Some(input.inp),
            r == ReceiveOutcome::Stored ==> forall|p: int, f: int|
                0 <= p < old(self).num_players() && !(p == player && f == frame)
                    ==> final(self).confirmed_at(p, f) == old(self).confirmed_at(p, f),
    {
        if self.disconnected[player] {
            return ReceiveOutcome::Ignored;
        }
        let existing: Option<u8> = if (frame as usize) < self.rows[player].len() {
            self.rows[player][frame as usize]
        } else {
            None
        };
        match existing {
            Some(v) => {
                if v == input.inp {
                    ReceiveOutcome::DuplicateDelivery
                } else {
                    ReceiveOutcome::ConflictingInput
                }
            },
            None => {
                self.store(player, frame, input.inp);
                ReceiveOutcome::Stored
            },
        }
    }

    /// Permanently disconnects a player: its not-yet-confirmed frames read
    /// as zero from now on; frames already confirmed are untouched.
    pub fn disconnect(&mut self, player: usize)
        requires
            old(self).wf(),
            player < old(self).num_players(),
        ensures
            final(self).wf(),
            final(self).num_players() == old(self).num_players(),
            final(self).local_handle == old(self).local_handle,
            final(self).rows@ == old(self).rows@,
            final(self).disconnected@ == old(self).disconnected@.update(player as int, true),
            forall|p: int, f: int| final(self).confirmed_at(p, f) == old(self).confirmed_at(p, f),
    {
        self.disconnected.set(player, true);
    }

    /// Whether every player's entry at a frame is fixed.
    fn frame_fixed_exec(&self, f: u32) -> (b: bool)
        requires
            self.wf(),
        ensures
            b == self.frame_fixed(f as int),
    {
        let np = self.rows.len();
        for p in 0..np
            invariant
                np == self.rows@.len(),
                self.wf(),
                forall|q: int| 0 <= q < p ==> self.is_fixed(q, f as int),
        {
            let c: Option<u8> = if (f as usize) < self.rows[p].len() {
                self.rows[p][f as usize]
            } else {
                None
            };
            if c.is_none() && !self.disconnected[p] {
                assert(!self.is_fixed(p as int, f as int));
                return false;
            }
        }
        true
    }

    /// Computes the confirmed frontier, capped at `limit`: the number of
    /// consecutive frames from zero whose inputs are fixed for every player.
    /// Frames below the frontier are immutable.
    pub fn advance_confirmed_frontier(&self, limit: u32) -> (r: u32)
        requires
            self.wf(),
        ensures
            r <= limit,
            self.prefix_fixed(r as int),
            r < limit ==> !self.frame_fixed(r as int),
    {
        let mut f: u32 = 0;
        let mut stop = false;
        while !stop && f < limit
            invariant
                self.wf(),
                f <= limit,
                self.prefix_fixed(f as int),
                stop ==> f < limit && !self.frame_fixed(f as int),
            decreases 2 * (limit - f) + (if stop { 0int } else { 1int }),
        {
            if self.frame_fixed_exec(f) {
                f = f + 1;
            } else {
                stop = true;
            }
        }
        f
    }

    /// Serves the best-available input table for a frame: per player, the
    /// confirmed input if known, else zero for a disconnected player, else
    /// the last confirmed input repeated as a prediction.
    pub fn inputs_for(&self, frame: u32) -> (r: Vec<(Input, InputStatus)>)
        requires
            self.wf(),
        ensures
            r@.len() == self.num_players(),
            forall|p: int| 0 <= p < r@.len() ==> (#[trigger] r@[p]).0.inp == self.input_for_model(
                p,
                frame as int,
            ).0,
            forall|p: int| 0 <= p < r@.len() ==> (#[trigger] r@[p]).1 == self.input_for_model(
                p,
                frame as int,
            ).1,
    {
        let np = self.rows.len();
        let mut r: Vec<(Input, InputStatus)> = Vec::new();
        for p in 0..np
            invariant
                np == self.rows@.len(),
                self.wf(),
                r@.len() == p,
                forall|q: int| 0 <= q < p ==> (#[trigger] r@[q]).0.inp == self.input_for_model(
                    q,
                    frame as int,
                ).0,
                forall|q: int| 0 <= q < p ==> (#[trigger] r@[q]).1 == self.input_for_model(
                    q,
                    frame as int,
                ).1,
        {
            let c: Option<u8> = if (frame as usize) < self.rows[p].len() {
                self.rows[p][frame as usize]
            } else {
                None
            };
            match c {
                Some(v) => {
                    r.push((Input { inp: v }, InputStatus::Confirmed));
                },
                None => {
                    if self.disconnected[p] {
                        r.push((Input { inp: 0 }, InputStatus::Disconnected));
                    } else {
                        let v = self.predict(p, frame);
                        r.push((Input { inp: v }, InputStatus::Predicted));
                    }
                },
            }
        }
        r
    }

    /// The repeat-last-confirmed prediction for a frame: scans backward for
    /// the player's most recent confirmed input before that frame.
    fn predict(&self, p: usize, frame: u32) -> (v: u8)
        requires
            self.wf(),
            p < self.num_players(),
        ensures
            v == self.pred_value(p as int, frame - 1),
    {
        let mut gi: usize = frame as usize;
        let mut found: Option<u8> = None;
        while gi > 0 && found.is_none()
            invariant
                self.wf(),
                p < self.num_players(),
                gi <= frame,
                found is None ==> forall|h: int| gi <= h < frame ==> self.confirmed_at(
                    p as int,
                    h,
                ) is None,
                found matches Some(v0) ==> gi >= 1 && self.confirmed_at(p as int, gi - 1)
                    == Some(v0) && forall|h: int| gi <= h < frame ==> self.confirmed_at(
                    p as int,
                    h,
                ) is None,
            decreases 2 * gi + (if found is Some { 0int } else { 1int }),
        {
            let idx = gi - 1;
            let c: Option<u8> = if idx < self.rows[p].len() {
                self.rows[p][idx]
            } else {
                None
            };
            assert(c == self.confirmed_at(p as int, idx as int));
            match c {
                Some(v0) => {
                    found = Some(v0);
                },
                None => {
                    gi = idx;
                },
            }
        }
        proof {
            match found {
                Some(v0) => {
                    self.lemma_latest_skip_none(p as int, gi - 1, frame - 1);
                    assert(self.latest_confirmed(p as int, gi - 1) == Some(gi - 1));
                },
                None => {
                    assert(gi == 0);
                    self.lemma_latest_skip_none(p as int, -1, frame - 1);
                },
            }
        }
        match found {
            Some(v0) => v0,
            None => 0,
        }
    }

    /// The confirmed input of a player at a frame, if one has been received.
    pub fn confirmed_value(&self, player: usize, frame: u32) -> (c: Option<u8>)
        requires
            self.wf(),
            player < self.num_players(),
        ensures
            c == self.confirmed_at(player as int, frame as int),
    {
        if (frame as usize) < self.rows[player].len() {
            self.rows[player][frame as usize]
        } else {
            None
        }
    }

    /// Skipping over unconfirmed frames does not change the most recent
    /// confirmed frame.
    pub proof fn lemma_latest_skip_none(self, p: int, lo: int, hi: int)
        requires
            -1 <= lo <= hi,
            forall|h: int| lo < h <= hi ==> self.confirmed_at(p, h) is None,
        ensures
            self.latest_confirmed(p, hi) == self.latest_confirmed(p, lo),
        decreases hi - lo,
    {
        if hi > lo {
            self.lemma_latest_skip_none(p, lo, hi - 1);
        }
    }
}

/// While a player's confirmed entries up to a frame are unchanged, so are
/// its most recent confirmed frame and its prediction basis there.
pub proof fn lemma_latest_same(pre: InputSynchronizer, post: InputSynchronizer, p: int, f: int)
    requires
        forall|h: int| h <= f ==> post.confirmed_at(p, h) == pre.confirmed_at(p, h),
    ensures
        post.latest_confirmed(p, f) == pre.latest_confirmed(p, f),
        post.pred_value(p, f) == pre.pred_value(p, f),
    decreases
        if f >= 0 {
            f + 1
        } else {
            0
        },
{
    if f >= 0 {
        lemma_latest_same(pre, post, p, f - 1);
    }
}

/// Newly confirming `(p0, k)` changes nothing a synchronizer serves for
/// other players, nor for `p0` below frame `k`.
pub proof fn lemma_store_preserves_below(
    pre: InputSynchronizer,
    post: InputSynchronizer,
    p0: int,
    k: int,
)
    requires
        post.num_players() == pre.num_players(),
        post.disconnected@ == pre.disconnected@,
        0 <= p0 < pre.num_players(),
        0 <= k,
        forall|p: int, f: int| 0 <= p < pre.num_players() && !(p == p0 && f == k)
            ==> post.confirmed_at(p, f) == pre.confirmed_at(p, f),
    ensures
        forall|p: int, f: int| 0 <= p < pre.num_players() && (p != p0 || f < k)
            ==> post.input_for_model(p, f) == pre.input_for_model(p, f),
{
    assert forall|p: int, f: int| 0 <= p < pre.num_players() && (p != p0 || f < k)
        implies post.input_for_model(p, f) == pre.input_for_model(p, f) by {
        lemma_latest_same(pre, post, p, f - 1);
    }
}

/// From the confirmed frame upward, the prediction basis after newly
/// confirming a value that equals the old basis is the old basis.
proof fn lemma_pred_after_matching_store(
    pre: InputSynchronizer,
    post: InputSynchronizer,
    p0: int,
    k: int,
    w: u8,
    f: int,
)
    requires
        post.num_players() == pre.num_players(),
        post.disconnected@ == pre.disconnected@,
        0 <= p0 < pre.num_players(),
        0 <= k <= f,
        pre.confirmed_at(p0, k) is None,
        post.confirmed_at(p0, k) == Some(w),
        w == pre.pred_value(p0, k - 1),
        forall|p: int, ff: int| 0 <= p < pre.num_players() && !(p == p0 && ff == k)
            ==> post.confirmed_at(p, ff) == pre.confirmed_at(p, ff),
    ensures
        post.pred_value(p0, f) == pre.pred_value(p0, f),
    decreases f - k,
{
    if f == k {
        assert(post.latest_confirmed(p0, k) == Some(k));
        lemma_latest_same(pre, post, p0, k - 1);
    } else {
        lemma_pred_after_matching_store(pre, post, p0, k, w, f - 1);
    }
}

/// Confirming a value that matches the effective input already being served
/// for that player and frame leaves every served effective input byte of
/// every player at every frame unchanged: a prediction proven right never
/// forces a rollback.
pub proof fn lemma_matching_store_preserves_eff(
    pre: InputSynchronizer,
    post: InputSynchronizer,
    p0: int,
    k: int,
    w: u8,
)
    requires
        post.num_players() == pre.num_players(),
        post.disconnected@ == pre.disconnected@,
        0 <= p0 < pre.num_players(),
        0 <= k,
        !pre.disconnected@[p0],
        pre.confirmed_at(p0, k) is None,
        post.confirmed_at(p0, k) == Some(w),
        w == pre.eff_input(p0, k),
        forall|p: int, f: int| 0 <= p < pre.num_players() && !(p == p0 && f == k)
            ==> post.confirmed_at(p, f) == pre.confirmed_at(p, f),
    ensures
        forall|p: int, f: int| 0 <= p < pre.num_players() ==> post.eff_input(p, f)
            == pre.eff_input(p, f),
{
    lemma_store_preserves_below(pre, post, p0, k);
    assert(w == pre.pred_value(p0, k - 1));
    assert forall|p: int, f: int| 0 <= p < pre.num_players() implies post.eff_input(p, f)
        == pre.eff_input(p, f) by {
        if p == p0 && f >= k {
            if f == k {
                lemma_latest_same(pre, post, p0, k - 1);
            } else {
                if post.confirmed_at(p0, f) is None && !post.disconnected@[p0] {
                    lemma_pred_after_matching_store(pre, post, p0, k, w, f - 1);
                }
            }
        }
    }
}

/// Fixed entries stay fixed when confirmed values are only ever added and
/// disconnections never lifted.
pub proof fn lemma_prefix_fixed_monotone(
    pre: InputSynchronizer,
    post: InputSynchronizer,
    n: int,
)
    requires
        post.num_players() == pre.num_players(),
        forall|p: int, f: int| 0 <= p < pre.num_players() ==> (pre.is_fixed(p, f)
            ==> post.is_fixed(p, f)),
        pre.prefix_fixed(n),
    ensures
        post.prefix_fixed(n),
{
    assert forall|f: int| 0 <= f < n implies post.frame_fixed(f) by {
        assert(pre.frame_fixed(f));
        assert forall|p: int| 0 <= p < post.num_players() implies post.is_fixed(p, f) by {
            assert(pre.is_fixed(p, f));
        }
    }
}

/// Rows of effective inputs recorded against the old table stay correct
/// under a new table that serves the same effective inputs below `upto`.
proof fn lemma_rows_still_fresh(
    used: Seq<Seq<u8>>,
    pre: InputSynchronizer,
    post: InputSynchronizer,
    upto: int,
)
    requires
        post.num_players() == pre.num_players(),
        forall|f: int| 0 <= f < upto ==> #[trigger] used[f] == pre.eff_row(f),
        forall|p: int, f: int| 0 <= p < pre.num_players() && 0 <= f < upto
            ==> #[trigger] post.eff_input(p, f) == pre.eff_input(p, f),
    ensures
        forall|f: int| 0 <= f < upto ==> #[trigger] used[f] == post.eff_row(f),
{
    assert forall|f: int| 0 <= f < upto implies #[trigger] used[f] == post.eff_row(f) by {
        assert(post.eff_row(f) =~= pre.eff_row(f));
    }
}

/// Newly confirming `(p0, k)` keeps every recorded input row below `k`
/// correct: nothing served below the confirmed frame changes.
pub proof fn lemma_rows_fresh_after_store(
    used: Seq<Seq<u8>>,
    pre: InputSynchronizer,
    post: InputSynchronizer,
    p0: int,
    k: int,
    upto: int,
)
    requires
        post.num_players() == pre.num_players(),
        post.disconnected@ == pre.disconnected@,
        0 <= p0 < pre.num_players(),
        0 <= upto <= k,
        forall|p: int, f: int| 0 <= p < pre.num_players() && !(p == p0 && f == k)
            ==> post.confirmed_at(p, f) == pre.confirmed_at(p, f),
        forall|f: int| 0 <= f < upto ==> #[trigger] used[f] == pre.eff_row(f),
    ensures
        forall|f: int| 0 <= f < upto ==> #[trigger] used[f] == post.eff_row(f),
{
    lemma_store_preserves_below(pre, post, p0, k);
    assert forall|p: int, f: int| 0 <= p < pre.num_players() && 0 <= f < upto
        implies #[trigger] post.eff_input(p, f) == pre.eff_input(p, f) by {
        assert(post.input_for_model(p, f) == pre.input_for_model(p, f));
    }
    lemma_rows_still_fresh(used, pre, post, upto);
}

/// Confirming a value that matches what was being served keeps every
/// recorded input row correct: a prediction proven right disturbs nothing.
pub proof fn lemma_rows_fresh_after_matching_store(
    used: Seq<Seq<u8>>,
    pre: InputSynchronizer,
    post: InputSynchronizer,
    p0: int,
    k: int,
    w: u8,
    upto: int,
)
    requires
        post.num_players() == pre.num_players(),
        post.disconnected@ == pre.disconnected@,
        0 <= p0 < pre.num_players(),
        0 <= k,
        0 <= upto,
        !pre.disconnected@[p0],
        pre.confirmed_at(p0, k) is None,
        post.confirmed_at(p0, k) == Some(w),
        w == pre.eff_input(p0, k),
        forall|p: int, f: int| 0 <= p < pre.num_players() && !(p == p0 && f == k)
            ==> post.confirmed_at(p, f) == pre.confirmed_at(p, f),
        forall|f: int| 0 <= f < upto ==> #[trigger] used[f] == pre.eff_row(f),
    ensures
        forall|f: int| 0 <= f < upto ==> #[trigger] used[f] == post.eff_row(f),
{
    lemma_matching_store_preserves_eff(pre, post, p0, k, w);
    lemma_rows_still_fresh(used, pre, post, upto);
}

/// Disconnecting a player keeps every recorded input row correct wherever
/// the player's entry was confirmed or already read as zero.
pub proof fn lemma_rows_fresh_after_disconnect(
    used: Seq<Seq<u8>>,
    pre: InputSynchronizer,
    post: InputSynchronizer,
    p0: int,
    upto: int,
)
    requires
        post.rows@ == pre.rows@,
        0 <= p0 < pre.num_players(),
        post.disconnected@ == pre.disconnected@.update(p0, true),
        pre.disconnected@.len() == pre.num_players(),
        0 <= upto,
        forall|f: int| 0 <= f < upto ==> #[trigger] used[f] == pre.eff_row(f),
        forall|g: int| 0 <= g < upto ==> pre.confirmed_at(p0, g) is Some || #[trigger] used[g][p0]
            == 0,
    ensures
        forall|f: int| 0 <= f < upto ==> #[trigger] used[f] == post.eff_row(f),
{
    lemma_disconnect_effect(pre, post, p0);
    assert forall|p: int, f: int| 0 <= p < pre.num_players() && 0 <= f < upto
        implies #[trigger] post.eff_input(p, f) == pre.eff_input(p, f) by {
        if p == p0 {
            if pre.confirmed_at(p0, f) is Some {
                assert(post.input_for_model(p, f) == pre.input_for_model(p, f));
            } else {
                assert(used[f] == pre.eff_row(f));
                assert(pre.eff_input(p0, f) == used[f][p0]);
                assert(used[f][p0] == 0);
                assert(post.eff_input(p0, f) == 0);
            }
        } else {
            assert(post.input_for_model(p, f) == pre.input_for_model(p, f));
        }
    }
    lemma_rows_still_fresh(used, pre, post, upto);
}

/// Disconnecting a player changes the served inputs of nobody else, keeps
/// the player's confirmed frames, and turns its unconfirmed frames to zero.
pub proof fn lemma_disconnect_effect(
    pre: InputSynchronizer,
    post: InputSynchronizer,
    p0: int,
)
    requires
        post.rows@ == pre.rows@,
        0 <= p0 < pre.num_players(),
        post.disconnected@ == pre.disconnected@.update(p0, true),
        pre.disconnected@.len() == pre.num_players(),
    ensures
        forall|p: int, f: int| 0 <= p < pre.num_players() && p != p0 ==> post.input_for_model(p, f)
            == pre.input_for_model(p, f),
        forall|f: int| pre.confirmed_at(p0, f) is Some ==> post.input_for_model(p0, f)
            == pre.input_for_model(p0, f),
        forall|f: int| pre.confirmed_at(p0, f) is None ==> post.eff_input(p0, f) == 0,
{
    assert forall|p: int, f: int| 0 <= p < pre.num_players() && p != p0
        implies post.input_for_model(p, f) == pre.input_for_model(p, f) by {
        lemma_latest_same(pre, post, p, f - 1);
    }
}

} // verus!
