use vstd::prelude::*;

use crate::checksum::{checksum, checksum_model, Checksum};
use crate::components::{model_wf, GameState, Input, InputStatus, StateModel};
use crate::simulator::{lemma_simulate_frame_np, simulate_model, step, step_model};
use crate::sync::{
    lemma_disconnect_effect, lemma_prefix_fixed_monotone, lemma_rows_fresh_after_disconnect,
    lemma_rows_fresh_after_matching_store, lemma_rows_fresh_after_store, DuplicateSubmission,
    InputSynchronizer, ReceiveOutcome,
};

verus! {

/// What one call of `tick` did.
#[derive(Clone, Copy, Debug, PartialEq, Eq, Structural)]
pub enum TickStatus {
    /// One frame was simulated and the frame pointer advanced.
    Advanced,
    /// Advancing would overrun the prediction window; nothing changed.
    /// Backpressure, not an error: it resumes once more input is confirmed.
    Stalled,
}

/// Orchestrates the per-tick protocol: reads the synchronizer's best-known
/// input table, advances the simulation one frame at a time, keeps one
/// snapshot and checksum per frame of the prediction window, stalls rather
/// than outrun the confirmed frontier, and on a misprediction restores the
/// snapshot before the wrong frame and re-simulates forward with the
/// corrected inputs.
pub struct RollbackController {
    /// The per-player per-frame input table.
    pub sync: InputSynchronizer,
    /// `snapshots[i]` is the state at frame `base_frame + i`, taken before
    /// that frame was simulated; the last entry is the current state.
    pub snapshots: Vec<GameState>,
    /// `checksums[i]` is the divergence checksum of `snapshots[i]`.
    pub checksums: Vec<Checksum>,
    /// `used_inputs[f]` holds the effective input bytes with which frame `f`
    /// was last simulated; rollback rewrites entries from the wrong frame on.
    pub used_inputs: Vec<Vec<u8>>,
    /// The oldest frame whose snapshot is still held.
    pub base_frame: u32,
    /// The next frame to simulate; snapshots exist for `base..=current`.
    pub current_frame: u32,
    /// How many frames the simulation may run past the confirmed frontier.
    pub max_prediction_window: u32,
    /// The round's initial state, which every snapshot re-derives.
    pub init: Ghost<StateModel>,
}

impl RollbackController {
    /// The effective input bytes of every simulated frame.
    pub open spec fn used_seq(self) -> Seq<Seq<u8>> {
        self.used_inputs@.map_values(|v: Vec<u8>| v@)
    }

    /// The state the simulation has (or would have) at a frame: the initial
    /// state advanced through the inputs used for every earlier frame.
    pub open spec fn state_at(self, f: int) -> StateModel {
        simulate_model(self.init@, self.used_seq().take(f))
    }

    /// The bookkeeping invariant that does not mention the synchronizer:
    /// lengths line up and every held snapshot and checksum re-derives from
    /// the initial state under the recorded inputs.
    pub open spec fn chain_ok(self) -> bool {
        &&& model_wf(self.init@)
        &&& self.init@.frame == 0
        &&& self.max_prediction_window >= 1
        &&& self.base_frame <= self.current_frame
        &&& self.used_inputs@.len() == self.current_frame
        &&& self.snapshots@.len() == self.current_frame - self.base_frame + 1
        &&& self.checksums@.len() == self.snapshots@.len()
        &&& forall|i: int| 0 <= i < self.snapshots@.len() ==> (#[trigger] self.snapshots@[i]).wf()
        &&& forall|i: int| 0 <= i < self.snapshots@.len()
            ==> (#[trigger] self.snapshots@[i]).model() == self.state_at(self.base_frame + i)
        &&& forall|i: int| 0 <= i < self.checksums@.len()
            ==> (#[trigger] self.checksums@[i]).value == checksum_model(self.snapshots@[i].model())
    }

    /// How the chain relates to an input table: player counts agree, every
    /// frame below `fresh_upto` was simulated with exactly the inputs the
    /// table serves for it now, the frame pointer is within the prediction
    /// window of the confirmed frontier, and every evicted frame was
    /// confirmed.
    pub open spec fn sync_ok(self, sync: InputSynchronizer, fresh_upto: int) -> bool {
        &&& sync.wf()
        &&& sync.num_players() == self.init@.num_players
        &&& forall|f: int| 0 <= f < fresh_upto ==> #[trigger] self.used_seq()[f] == sync.eff_row(f)
        &&& self.current_frame <= self.max_prediction_window || sync.prefix_fixed(
            self.current_frame - self.max_prediction_window,
        )
        &&& sync.prefix_fixed(self.base_frame as int)
    }

    pub open spec fn inv(self) -> bool {
        &&& self.chain_ok()
        &&& self.sync_ok(self.sync, self.current_frame as int)
    }

    /// The window-bound law: the simulation never runs more than the
    /// prediction window past the confirmed frontier, i.e. every frame more
    /// than a window behind the current one is fixed for every player.
    pub proof fn lemma_window_bound(self)
        requires
            self.inv(),
        ensures
            self.current_frame <= self.max_prediction_window || self.sync.prefix_fixed(
                self.current_frame - self.max_prediction_window,
            ),
    {
    }

    /// Peer agreement: two controllers that started from the same round
    /// state and have received identical confirmed input histories for every
    /// frame below `f` derive bit-identical states at `f`, and hence equal
    /// checksums — the ground for checksum-based desync detection.
    pub proof fn lemma_peer_agreement(a: RollbackController, b: RollbackController, f: int)
        requires
            a.inv(),
            b.inv(),
            a.init@ == b.init@,
            0 <= f <= a.current_frame,
            f <= b.current_frame,
            forall|p: int, g: int| 0 <= p < a.sync.num_players() && 0 <= g < f
                ==> (#[trigger] a.sync.confirmed_at(p, g)) is Some,
            forall|p: int, g: int| 0 <= p < a.sync.num_players() && 0 <= g < f
                ==> #[trigger] a.sync.confirmed_at(p, g) == #[trigger] b.sync.confirmed_at(p, g),
        ensures
            a.state_at(f) == b.state_at(f),
            checksum_model(a.state_at(f)) == checksum_model(b.state_at(f)),
    {
        assert forall|g: int| 0 <= g < f implies a.used_seq()[g] == b.used_seq()[g] by {
            assert(a.used_seq()[g] == a.sync.eff_row(g));
            assert(b.used_seq()[g] == b.sync.eff_row(g));
            assert forall|p: int| 0 <= p < a.sync.num_players() implies a.sync.eff_input(p, g)
                == b.sync.eff_input(p, g) by {
                assert(a.sync.confirmed_at(p, g) is Some);
                assert(a.sync.confirmed_at(p, g) == b.sync.confirmed_at(p, g));
            }
            assert(a.sync.eff_row(g) =~= b.sync.eff_row(g));
        }
        assert(a.used_seq().take(f) =~= b.used_seq().take(f));
    }

    /// A new controller at frame zero for a freshly spawned round state.
    pub fn new(state: GameState, local_handle: usize, max_prediction_window: u32) -> (c: Self)
        requires
            state.wf(),
            state.frame.frame == 0,
            local_handle < state.num_players,
            max_prediction_window >= 1,
        ensures
            c.inv(),
            c.current_frame == 0,
            c.base_frame == 0,
            c.max_prediction_window == max_prediction_window,
            c.init@ == state.model(),
            c.sync.num_players() == state.num_players,
            c.sync.local_handle == local_handle,
    {
        let np = state.num_players;
        let sync = InputSynchronizer::new(np, local_handle);
        let cs = checksum(&state);
        let ghost init = state.model();
        let mut snapshots: Vec<GameState> = Vec::new();
        let mut checksums: Vec<Checksum> = Vec::new();
        snapshots.push(state);
        checksums.push(cs);
        let c = RollbackController {
            sync,
            snapshots,
            checksums,
            used_inputs: Vec::new(),
            base_frame: 0,
            current_frame: 0,
            max_prediction_window,
            init: Ghost(init),
        };
        proof {
            assert(c.used_seq() =~= Seq::<Seq<u8>>::empty());
            assert(c.used_seq().take(0) =~= Seq::<Seq<u8>>::empty());
            assert(c.snapshots@[0].model() == c.state_at(0));
        }
        c
    }

    /// Read-only access to the snapshot of any held frame.
    pub fn snapshot_at(&self, frame: u32) -> (s: GameState)
        requires
            self.inv(),
            self.base_frame <= frame <= self.current_frame,
        ensures
            s.model() == self.state_at(frame as int),
    {
        self.snapshots[(frame - self.base_frame) as usize].snapshot()
    }

    /// Read-only access to the checksum of any held frame, for divergence
    /// detection against a peer's report.
    pub fn checksum_at(&self, frame: u32) -> (c: Checksum)
        requires
            self.inv(),
            self.base_frame <= frame <= self.current_frame,
        ensures
            c.value == checksum_model(self.state_at(frame as int)),
    {
        self.checksums[(frame - self.base_frame) as usize]
    }

    /// The frontier below which the simulation may not fall behind: if the
    /// next frame is beyond it, the tick stalls.
    pub open spec fn stall_bound(self) -> int {
        if self.current_frame + 1 > self.max_prediction_window {
            self.current_frame + 1 - self.max_prediction_window
        } else {
            0
        }
    }

    /// Whether a tick would stall now instead of simulating: some frame it
    /// would leave more than a window behind is not yet confirmed.
    pub open spec fn would_stall(self) -> bool {
        !self.sync.prefix_fixed(self.stall_bound())
    }

    /// Simulates the current frame with the synchronizer's best-available
    /// inputs, records them, stores the new snapshot and checksum, and
    /// advances the frame pointer.
    fn advance_one(&mut self)
        requires
            old(self).chain_ok(),
            old(self).sync_ok(old(self).sync, old(self).current_frame as int),
            old(self).current_frame < u32::MAX,
            old(self).current_frame + 1 <= old(self).max_prediction_window || old(
                self,
            ).sync.prefix_fixed(
                old(self).current_frame + 1 - old(self).max_prediction_window,
            ),
        ensures
            final(self).chain_ok(),
            final(self).sync_ok(final(self).sync, final(self).current_frame as int),
            final(self).sync == old(self).sync,
            final(self).base_frame == old(self).base_frame,
            final(self).max_prediction_window == old(self).max_prediction_window,
            final(self).init == old(self).init,
            final(self).current_frame == old(self).current_frame + 1,
            final(self).used_seq() == old(self).used_seq().push(
                old(self).sync.eff_row(old(self).current_frame as int),
            ),
    {
        let cur = self.current_frame;
        let inputs = self.sync.inputs_for(cur);
        proof {
            let usq = self.used_seq();
            assert(usq.take(self.base_frame + (self.snapshots@.len() - 1)) =~= usq);
            lemma_simulate_frame_np(self.init@, usq);
        }
        let top = &self.snapshots[self.snapshots.len() - 1];
        assert(top.model() == self.state_at(self.current_frame as int));
        assert(top.model().num_players == self.sync.num_players());
        let next = step(top, &inputs);
        let cs = checksum(&next);
        let mut row: Vec<u8> = Vec::new();
        let n = inputs.len();
        for p in 0..n
            invariant
                n == inputs@.len(),
                row@.len() == p,
                forall|q: int| 0 <= q < p ==> row@[q] == crate::components::effective_input(
                    #[trigger] inputs@[q],
                ),
        {
            let pair = inputs[p];
            let b: u8 = match pair.1 {
                InputStatus::Disconnected => 0u8,
                _ => pair.0.inp,
            };
            row.push(b);
        }
        proof {
            assert(row@ =~= crate::components::effective_inputs(inputs@));
            assert forall|q: int| 0 <= q < n implies row@[q] == self.sync.eff_input(
                q,
                cur as int,
            ) by {}
            assert(row@ =~= self.sync.eff_row(cur as int));
        }
        let ghost pre = *self;
        self.used_inputs.push(row);
        self.snapshots.push(next);
        self.checksums.push(cs);
        self.current_frame = cur + 1;
        proof {
            let eff = self.sync.eff_row(cur as int);
            let usq_old = pre.used_seq();
            let usq = self.used_seq();
            assert(usq =~= usq_old.push(eff));
            assert(usq.drop_last() =~= usq_old);
            // the chain: old entries keep their prefixes, the new top takes all
            assert forall|i: int| 0 <= i < self.snapshots@.len() implies (
            #[trigger] self.snapshots@[i]).model() == self.state_at(self.base_frame + i) by {
                if i < self.snapshots@.len() - 1 {
                    assert(self.snapshots@[i] == pre.snapshots@[i]);
                    assert(usq.take(self.base_frame + i) =~= usq_old.take(self.base_frame + i));
                } else {
                    assert(usq.take(self.base_frame + i) =~= usq);
                    assert(usq.take(pre.base_frame + (pre.snapshots@.len() - 1)) =~= usq_old);
                    assert(simulate_model(self.init@, usq) == step_model(
                        simulate_model(self.init@, usq_old),
                        eff,
                    ));
                    assert(crate::components::effective_inputs(inputs@) =~= eff);
                }
            }
            assert forall|f: int| 0 <= f < self.current_frame implies #[trigger] self.used_seq()[f]
                == self.sync.eff_row(f) by {
                if f < cur {
                    assert(usq[f] == usq_old[f]);
                }
            }
        }
    }

    /// One tick of the per-frame protocol: if simulating the current frame
    /// would put it more than the prediction window past the confirmed
    /// frontier, stall and change nothing (backpressure, resumed once more
    /// confirmed input arrives); otherwise simulate it with the best
    /// available inputs, store snapshot and checksum, and advance.
    pub fn tick(&mut self) -> (status: TickStatus)
        requires
            old(self).inv(),
            old(self).current_frame < u32::MAX,
        ensures
            final(self).inv(),
            status == TickStatus::Stalled <==> old(self).would_stall(),
            status == TickStatus::Stalled ==> *final(self) == *old(self),
            status == TickStatus::Advanced ==> {
                &&& final(self).current_frame == old(self).current_frame + 1
                &&& final(self).sync == old(self).sync
                &&& final(self).base_frame == old(self).base_frame
                &&& final(self).init == old(self).init
                &&& final(self).max_prediction_window == old(self).max_prediction_window
                &&& final(self).used_seq() == old(self).used_seq().push(
                    old(self).sync.eff_row(old(self).current_frame as int),
                )
                &&& final(self).state_at(final(self).current_frame as int) == step_model(
                    old(self).state_at(old(self).current_frame as int),
                    old(self).sync.eff_row(old(self).current_frame as int),
                )
            },
    {
        let need: u32 = if self.current_frame + 1 > self.max_prediction_window {
            self.current_frame + 1 - self.max_prediction_window
        } else {
            0
        };
        let cf = self.sync.advance_confirmed_frontier(need);
        if cf < need {
            proof {
                assert(!self.sync.frame_fixed(cf as int));
                assert(self.would_stall());
            }
            return TickStatus::Stalled;
        }
        assert(self.sync.prefix_fixed(need as int));
        assert(!self.would_stall());
        let ghost pre = *self;
        self.advance_one();
        proof {
            let usq = self.used_seq();
            assert(usq.take(self.current_frame as int) =~= usq);
            assert(pre.used_seq().take(pre.current_frame as int) =~= pre.used_seq());
            assert(usq.drop_last() =~= pre.used_seq());
        }
        TickStatus::Advanced
    }

    /// Restores the snapshot taken before frame `k` was simulated, discards
    /// everything derived from frame `k` on, and re-simulates sequentially
    /// up to the frame the controller was at, now with the synchronizer's
    /// corrected inputs. Resimulation runs in strictly increasing frame
    /// order and cannot stall: it never moves past where it already was.
    fn rollback_resim(&mut self, k: u32)
        requires
            old(self).chain_ok(),
            old(self).sync_ok(old(self).sync, k as int),
            old(self).base_frame <= k < old(self).current_frame,
        ensures
            final(self).inv(),
            final(self).current_frame == old(self).current_frame,
            final(self).base_frame == old(self).base_frame,
            final(self).sync == old(self).sync,
            final(self).init == old(self).init,
            final(self).max_prediction_window == old(self).max_prediction_window,
    {
        let saved = self.current_frame;
        let idx = (k - self.base_frame) as usize;
        let ghost pre = *self;
        self.snapshots.truncate(idx + 1);
        self.checksums.truncate(idx + 1);
        self.used_inputs.truncate(k as usize);
        self.current_frame = k;
        proof {
            let usq = self.used_seq();
            assert(usq =~= pre.used_seq().take(k as int));
            assert forall|i: int| 0 <= i < self.snapshots@.len() implies {
                &&& (#[trigger] self.snapshots@[i]).wf()
                &&& self.snapshots@[i].model() == self.state_at(self.base_frame + i)
                &&& self.checksums@[i].value == checksum_model(self.snapshots@[i].model())
            } by {
                assert(self.snapshots@[i] == pre.snapshots@[i]);
                assert(self.checksums@[i] == pre.checksums@[i]);
                assert(usq.take(self.base_frame + i) =~= pre.used_seq().take(
                    self.base_frame + i,
                ));
            }
            assert forall|f: int| 0 <= f < self.current_frame implies #[trigger] self.used_seq()[f]
                == self.sync.eff_row(f) by {
                assert(self.used_seq()[f] == pre.used_seq()[f]);
            }
            assert(self.chain_ok());
            assert(self.sync_ok(self.sync, self.current_frame as int));
        }
        while self.current_frame < saved
            invariant
                self.chain_ok(),
                self.sync_ok(self.sync, self.current_frame as int),
                self.current_frame <= saved,
                self.sync == old(self).sync,
                self.base_frame == old(self).base_frame,
                self.init == old(self).init,
                self.max_prediction_window == old(self).max_prediction_window,
                saved as int <= self.max_prediction_window || self.sync.prefix_fixed(
                    saved - self.max_prediction_window,
                ),
            decreases saved - self.current_frame,
        {
            self.advance_one();
        }
    }

    /// After a new value `w` was confirmed for `(player, frame)`, restores
    /// the invariant: if the frame was already simulated with a different
    /// effective input, that is a misprediction — roll back to it and
    /// re-simulate with the corrected inputs; otherwise every snapshot is
    /// already consistent with what the synchronizer now serves.
    fn resync_after_confirm(
        &mut self,
        player: usize,
        frame: u32,
        w: u8,
        Ghost(pre): Ghost<RollbackController>,
    )
        requires
            pre.inv(),
            player < pre.sync.num_players(),
            old(self).snapshots == pre.snapshots,
            old(self).checksums == pre.checksums,
            old(self).used_inputs == pre.used_inputs,
            old(self).base_frame == pre.base_frame,
            old(self).current_frame == pre.current_frame,
            old(self).max_prediction_window == pre.max_prediction_window,
            old(self).init == pre.init,
            old(self).sync.wf(),
            old(self).sync.num_players() == pre.sync.num_players(),
            old(self).sync.local_handle == pre.sync.local_handle,
            old(self).sync.disconnected@ == pre.sync.disconnected@,
            !pre.sync.disconnected@[player as int],
            pre.sync.confirmed_at(player as int, frame as int) is None,
            old(self).sync.confirmed_at(player as int, frame as int) == Some(w),
            forall|p: int, f: int| 0 <= p < pre.sync.num_players() && !(p == player && f == frame)
                ==> old(self).sync.confirmed_at(p, f) == pre.sync.confirmed_at(p, f),
        ensures
            final(self).inv(),
            final(self).current_frame == pre.current_frame,
            final(self).base_frame == pre.base_frame,
            final(self).init == pre.init,
            final(self).max_prediction_window == pre.max_prediction_window,
            final(self).sync == old(self).sync,
    {
        proof {
            assert forall|p: int, f: int|
                0 <= p < pre.sync.num_players() && pre.sync.is_fixed(p, f)
                implies self.sync.is_fixed(p, f) by {}
            lemma_prefix_fixed_monotone(pre.sync, self.sync, pre.base_frame as int);
            if pre.current_frame > pre.max_prediction_window {
                lemma_prefix_fixed_monotone(
                    pre.sync,
                    self.sync,
                    pre.current_frame - pre.max_prediction_window,
                );
            }
        }
        if frame < self.current_frame {
            proof {
                if (frame as int) < pre.base_frame as int {
                    assert(pre.sync.frame_fixed(frame as int));
                    assert(pre.sync.is_fixed(player as int, frame as int));
                    assert(false);
                }
                assert(pre.used_seq()[frame as int] == pre.sync.eff_row(frame as int));
                assert(pre.used_seq()[frame as int].len() == pre.sync.num_players());
            }
            let used_b = self.used_inputs[frame as usize][player];
            assert(used_b == pre.sync.eff_input(player as int, frame as int));
            if used_b != w {
                proof {
                    lemma_rows_fresh_after_store(
                        pre.used_seq(),
                        pre.sync,
                        self.sync,
                        player as int,
                        frame as int,
                        frame as int,
                    );
                }
                self.rollback_resim(frame);
            } else {
                proof {
                    lemma_rows_fresh_after_matching_store(
                        pre.used_seq(),
                        pre.sync,
                        self.sync,
                        player as int,
                        frame as int,
                        w,
                        self.current_frame as int,
                    );
                }
            }
        } else {
            proof {
                lemma_rows_fresh_after_store(
                    pre.used_seq(),
                    pre.sync,
                    self.sync,
                    player as int,
                    frame as int,
                    self.current_frame as int,
                );
            }
        }
    }

    /// Accepts a peer-reported input. A value for an already-simulated frame
    /// that differs from the input used then is a misprediction: the
    /// controller consumes it by rolling back to that frame and
    /// re-simulating forward with the corrected inputs — never surfaced as a
    /// failure. Conflicting or duplicate deliveries and input for
    /// disconnected players change nothing.
    pub fn handle_remote_input(&mut self, player: usize, frame: u32, input: Input) -> (r:
        ReceiveOutcome)
        requires
            old(self).inv(),
            player < old(self).sync.num_players(),
        ensures
            final(self).inv(),
            final(self).current_frame == old(self).current_frame,
            final(self).base_frame == old(self).base_frame,
            final(self).init == old(self).init,
            final(self).max_prediction_window == old(self).max_prediction_window,
            r == ReceiveOutcome::Ignored <==> old(self).sync.disconnected@[player as int],
            r == ReceiveOutcome::DuplicateDelivery <==> !old(self).sync.disconnected@[player as int]
                && old(self).sync.confirmed_at(player as int, frame as int) == Some(input.inp),
            r == ReceiveOutcome::ConflictingInput <==> !old(self).sync.disconnected@[player as int]
                && old(self).sync.confirmed_at(player as int, frame as int) is Some && old(
                self,
            ).sync.confirmed_at(player as int, frame as int) != Some(input.inp),
            r == ReceiveOutcome::Stored <==> !old(self).sync.disconnected@[player as int] && old(
                self,
            ).sync.confirmed_at(player as int, frame as int) is None,
            r != ReceiveOutcome::Stored ==> *final(self) == *old(self),
            r == ReceiveOutcome::Stored ==> final(self).sync.confirmed_at(
                player as int,
                frame as int,
            ) == Some(input.inp),
    {
        let ghost pre = *self;
        let r = self.sync.receive_remote(player, frame, input);
        match r {
            ReceiveOutcome::Stored => {
                self.resync_after_confirm(player, frame, input.inp, Ghost(pre));
            },
            _ => {},
        }
        r
    }

    /// Records the local player's input for a frame (normally the current
    /// frame plus the configured input delay). Fails with
    /// `DuplicateSubmission`, changing nothing, iff the frame is already
    /// confirmed for the local player; a submission for an already-simulated
    /// frame that differs from the input used then triggers the same
    /// rollback as a remote misprediction. If the local player has been
    /// disconnected the submission is dropped.
    pub fn submit_local(&mut self, frame: u32, input: Input) -> (r: Result<
        (),
        DuplicateSubmission,
    >)
        requires
            old(self).inv(),
        ensures
            final(self).inv(),
            final(self).current_frame == old(self).current_frame,
            final(self).base_frame == old(self).base_frame,
            final(self).init == old(self).init,
            final(self).max_prediction_window == old(self).max_prediction_window,
            r is Err <==> !old(self).sync.disconnected@[old(self).sync.local_handle as int] && old(
                self,
            ).sync.confirmed_at(old(self).sync.local_handle as int, frame as int) is Some,
            r is Err ==> *final(self) == *old(self),
            old(self).sync.disconnected@[old(self).sync.local_handle as int] ==> *final(self)
                == *old(self),
            r is Ok && !old(self).sync.disconnected@[old(self).sync.local_handle as int]
                ==> final(self).sync.confirmed_at(
                old(self).sync.local_handle as int,
                frame as int,
            ) == Some(input.inp),
    {
        let h = self.sync.local_handle;
        if self.sync.disconnected[h] {
            return Ok(());
        }
        let ghost pre = *self;
        let res = self.sync.submit_local(frame, input);
        match res {
            Err(e) => Err(e),
            Ok(_) => {
                self.resync_after_confirm(h, frame, input.inp, Ghost(pre));
                Ok(())
            },
        }
    }

    /// Permanently disconnects a player: its unconfirmed inputs read as zero
    /// from now on, already-confirmed frames are untouched. If any simulated
    /// frame used a nonzero predicted input for the player, the controller
    /// rolls back to the first such frame and re-simulates.
    pub fn disconnect_player(&mut self, player: usize)
        requires
            old(self).inv(),
            player < old(self).sync.num_players(),
        ensures
            final(self).inv(),
            final(self).current_frame == old(self).current_frame,
            final(self).base_frame == old(self).base_frame,
            final(self).init == old(self).init,
            final(self).max_prediction_window == old(self).max_prediction_window,
            final(self).sync.rows@ == old(self).sync.rows@,
            final(self).sync.disconnected@[player as int],
            forall|q: int| 0 <= q < old(self).sync.num_players() && q != player
                ==> final(self).sync.disconnected@[q] == old(self).sync.disconnected@[q],
    {
        if self.sync.disconnected[player] {
            return;
        }
        let ghost pre = *self;
        self.sync.disconnect(player);
        proof {
            lemma_disconnect_effect(pre.sync, self.sync, player as int);
            assert forall|p: int, f: int|
                0 <= p < pre.sync.num_players() && pre.sync.is_fixed(p, f)
                implies self.sync.is_fixed(p, f) by {}
            lemma_prefix_fixed_monotone(pre.sync, self.sync, pre.base_frame as int);
            if pre.current_frame > pre.max_prediction_window {
                lemma_prefix_fixed_monotone(
                    pre.sync,
                    self.sync,
                    pre.current_frame - pre.max_prediction_window,
                );
            }
        }
        let mut f = self.base_frame;
        let mut target: Option<u32> = None;
        while f < self.current_frame && target.is_none()
            invariant
                pre.inv(),
                self.snapshots == pre.snapshots,
                self.checksums == pre.checksums,
                self.used_inputs == pre.used_inputs,
                self.base_frame == pre.base_frame,
                self.max_prediction_window == pre.max_prediction_window,
                self.init == pre.init,
                self.sync.wf(),
                self.sync.num_players() == pre.sync.num_players(),
                player < pre.sync.num_players(),
                pre.base_frame <= f <= self.current_frame,
                self.current_frame == pre.current_frame,
                target is None ==> forall|g: int| pre.base_frame <= g < f
                    ==> pre.sync.confirmed_at(player as int, g) is Some || #[trigger] pre.used_seq(
                )[g][player as int] == 0,
                target matches Some(k) ==> pre.base_frame <= k < self.current_frame && f == k
                    && pre.sync.confirmed_at(player as int, k as int) is None && pre.used_seq(
                )[k as int][player as int] != 0 && forall|g: int| pre.base_frame <= g < k
                    ==> pre.sync.confirmed_at(player as int, g) is Some || #[trigger] pre.used_seq(
                )[g][player as int] == 0,
                self.sync.rows@ == pre.sync.rows@,
                self.sync.disconnected@ == pre.sync.disconnected@.update(player as int, true),
            decreases 2 * (self.current_frame - f) + (if target is Some { 0int } else { 1int }),
        {
            let c = self.sync.confirmed_value(player, f);
            proof {
                assert(self.sync.confirmed_at(player as int, f as int) == pre.sync.confirmed_at(
                    player as int,
                    f as int,
                ));
                assert(pre.used_seq()[f as int] == pre.sync.eff_row(f as int));
                assert(pre.used_seq()[f as int].len() == pre.sync.num_players());
            }
            let used_b = self.used_inputs[f as usize][player];
            if c.is_none() && used_b != 0 {
                target = Some(f);
            } else {
                f = f + 1;
            }
        }
        match target {
            Some(k) => {
                proof {
                    assert forall|g: int| 0 <= g < k implies pre.sync.confirmed_at(
                        player as int,
                        g,
                    ) is Some || #[trigger] pre.used_seq()[g][player as int] == 0 by {
                        if g < pre.base_frame {
                            assert(pre.sync.frame_fixed(g));
                            assert(pre.sync.is_fixed(player as int, g));
                        }
                    }
                    lemma_rows_fresh_after_disconnect(
                        pre.used_seq(),
                        pre.sync,
                        self.sync,
                        player as int,
                        k as int,
                    );
                    assert(self.sync_ok(self.sync, k as int));
                }
                self.rollback_resim(k);
            },
            None => {
                proof {
                    assert forall|g: int| 0 <= g < self.current_frame implies pre.sync.confirmed_at(
                        player as int,
                        g,
                    ) is Some || #[trigger] pre.used_seq()[g][player as int] == 0 by {
                        if g < pre.base_frame {
                            assert(pre.sync.frame_fixed(g));
                            assert(pre.sync.is_fixed(player as int, g));
                        }
                    }
                    lemma_rows_fresh_after_disconnect(
                        pre.used_seq(),
                        pre.sync,
                        self.sync,
                        player as int,
                        self.current_frame as int,
                    );
                }
            },
        }
    }

    /// Evicts snapshots of frames that are wholly below the confirmed
    /// frontier: no rollback can ever target them again, so only the window
    /// between the frontier and the current frame needs to be held.
    pub fn evict_confirmed(&mut self)
        requires
            old(self).inv(),
        ensures
            final(self).inv(),
            final(self).current_frame == old(self).current_frame,
            final(self).base_frame >= old(self).base_frame,
            final(self).sync == old(self).sync,
            final(self).init == old(self).init,
            final(self).max_prediction_window == old(self).max_prediction_window,
            final(self).used_seq() == old(self).used_seq(),
            // eviction is maximal: it stops only at the frontier or the
            // current frame
            final(self).base_frame < final(self).current_frame ==> !final(self).sync.frame_fixed(
                final(self).base_frame as int,
            ),
    {
        let cf = self.sync.advance_confirmed_frontier(self.current_frame);
        proof {
            if cf < self.base_frame {
                assert(self.sync.frame_fixed(cf as int));
                assert(false);
            }
        }
        while self.base_frame < cf
            invariant
                self.chain_ok(),
                self.sync_ok(self.sync, self.current_frame as int),
                self.base_frame <= cf <= self.current_frame,
                self.sync.prefix_fixed(cf as int),
                cf < self.current_frame ==> !self.sync.frame_fixed(cf as int),
                self.current_frame == old(self).current_frame,
                self.base_frame >= old(self).base_frame,
                self.sync == old(self).sync,
                self.init == old(self).init,
                self.max_prediction_window == old(self).max_prediction_window,
                self.used_inputs == old(self).used_inputs,
            decreases cf - self.base_frame,
        {
            let ghost pre = *self;
            self.snapshots.remove(0);
            self.checksums.remove(0);
            self.base_frame = self.base_frame + 1;
            proof {
                assert forall|i: int| 0 <= i < self.snapshots@.len() implies {
                    &&& (#[trigger] self.snapshots@[i]).wf()
                    &&& self.snapshots@[i].model() == self.state_at(self.base_frame + i)
                    &&& self.checksums@[i].value == checksum_model(self.snapshots@[i].model())
                } by {
                    assert(self.snapshots@[i] == pre.snapshots@[i + 1]);
                    assert(self.checksums@[i] == pre.checksums@[i + 1]);
                }
            }
        }
    }
}

} // verus!
