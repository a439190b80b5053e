//! The cipher context: the round keys and the optional initial value.

use vstd::prelude::*;

verus! {

/// Number of rounds of a block operation, and of round keys in a context.
pub const ROUNDS: usize = 24;

/// Round keys and optional initial value of one cipher instance.
///
/// A fresh context is unkeyed: all round keys are zero and no initial value
/// is set. Key setup overwrites every round key at once.
#[derive(Clone)]
pub struct Qarx256Ctx {
    /// One four-word key per round, in round order.
    pub rk: [[u64; 4]; ROUNDS],
    /// When present, XORed into the state at the block boundary.
    pub iv: Option<[u64; 4]>,
}

/// The mathematical content of a context.
pub struct CtxModel {
    /// The round keys, in round order.
    pub round_keys: Seq<Seq<u64>>,
    /// The initial value, if one is set.
    pub iv: Option<Seq<u64>>,
}

impl CtxModel {
    /// Every context has `ROUNDS` round keys of four words each, and an
    /// initial value of four words if it has one.
    pub open spec fn wf(self) -> bool {
        &&& self.round_keys.len() == ROUNDS
        &&& forall|i: int| 0 <= i < ROUNDS ==> (#[trigger] self.round_keys[i]).len() == 4
        &&& self.iv matches Some(iv) ==> iv.len() == 4
    }
}

impl View for Qarx256Ctx {
    type V = CtxModel;

    open spec fn view(&self) -> CtxModel {
        CtxModel {
            round_keys: Seq::new(ROUNDS as nat, |i: int| self.rk[i]@),
            iv: match self.iv {
                Some(iv) => Some(iv@),
                None => None,
            },
        }
    }
}

impl Qarx256Ctx {
    /// The model of any context is well formed.
    pub proof fn lemma_view_wf(self)
        ensures
            self@.wf(),
    {
    }
}

impl Default for Qarx256Ctx {
    /// The unkeyed context.
    fn default() -> (ctx: Self)
        ensures
            ctx@.round_keys == Seq::new(ROUNDS as nat, |i: int| seq![0u64, 0u64, 0u64, 0u64]),
            ctx@.iv is None,
    {
        let ctx = Qarx256Ctx { rk: [[0u64; 4]; ROUNDS], iv: None };
        assert forall|i: int| 0 <= i < ROUNDS implies #[trigger] ctx@.round_keys[i] == seq![
            0u64,
            0u64,
            0u64,
            0u64,
        ] by {
            assert(ctx.rk[i]@ =~= seq![0u64, 0u64, 0u64, 0u64]);
        }
        assert(ctx@.round_keys =~= Seq::new(
            ROUNDS as nat,
            |i: int| seq![0u64, 0u64, 0u64, 0u64],
        ));
        ctx
    }
}

} // verus!
