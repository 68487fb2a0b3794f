//! Tunable parameters of the search.

use vstd::prelude::*;
use crate::arith;
use crate::types::MAX_DEPTH;

verus! {

/// How far a parameter that is computed with may be from 0. The largest number that is computed from one is `see_quiet_margin` times
/// the square of the depth: up to this value it is within 32 bits at the greatest depth.
pub const PARAM_MAX: i32 = 129_000;

#[derive(Clone, Copy, PartialEq, Eq, Debug)]
pub struct SearchParams {
    /// Half the width of the first aspiration window.
    pub asp_initial: i32,
    pub rfp_depth: i32,
    pub rfp_margin: i32,
    pub razoring_depth: i32,
    pub razoring_margin: i32,
    pub nmp_base_r: i32,
    pub nmp_depth_divisor: i32,
    pub nmp_eval_divisor: i32,
    pub nmp_eval_max: i32,
    pub fp_depth: i32,
    pub fp_margin: i32,
    pub lmp_depth: i32,
    pub lmp_base: i32,
    pub see_capture_margin: i32,
    pub see_quiet_margin: i32,
    pub delta_margin: i32,
    /// Base of the late-move reduction, in hundredths.
    pub lmr_base: i32,
    /// Divisor of the late-move reduction, in hundredths.
    pub lmr_divisor: i32,
    pub mvvlva_v_pawn: i32,
    pub mvvlva_v_knight: i32,
    pub mvvlva_v_bishop: i32,
    pub mvvlva_v_rook: i32,
    pub mvvlva_v_queen: i32,
    pub mvvlva_v_king: i32,
    pub mvvlva_a_pawn: i32,
    pub mvvlva_a_knight: i32,
    pub mvvlva_a_bishop: i32,
    pub mvvlva_a_rook: i32,
    pub mvvlva_a_queen: i32,
    pub mvvlva_a_king: i32,
}

/// A number that can be multiplied by the square of the greatest depth.
pub open spec fn in_range(x: i32) -> bool {
    -PARAM_MAX <= x <= PARAM_MAX
}

impl SearchParams {
    /// The smallest reduction of a null move search, at any depth and for any evaluation.
    pub open spec fn least_null_reduction(self) -> int {
        self.nmp_base_r + arith::smaller(self.nmp_eval_max as int, 0) + (if self.nmp_depth_divisor < 0 {
            arith::quot(MAX_DEPTH as int, self.nmp_depth_divisor as int)
        } else {
            0
        })
    }

    /// Margins and piece values are in range; a depth from which on something is done may be any number.
    ///
    /// A negative first margin would turn the aspiration window round, and no score would ever be inside. The
    /// divisor of the evaluation is positive, and a null move search is not deepened, so that its depth stays
    /// within the greatest depth.
    pub open spec fn wf(self) -> bool {
        &&& in_range(self.asp_initial) && self.asp_initial >= 0
        &&& in_range(self.rfp_margin) && in_range(self.razoring_margin) && in_range(self.fp_margin)
        &&& in_range(self.nmp_base_r) && in_range(self.nmp_eval_max)
        &&& in_range(self.nmp_depth_divisor) && self.nmp_depth_divisor != 0
        &&& self.nmp_eval_divisor >= 1
        &&& self.least_null_reduction() >= -1
        &&& in_range(self.lmp_base)
        &&& in_range(self.see_capture_margin) && in_range(self.see_quiet_margin)
        &&& in_range(self.delta_margin)
        &&& in_range(self.mvvlva_v_pawn) && in_range(self.mvvlva_v_knight) && in_range(self.mvvlva_v_bishop)
        &&& in_range(self.mvvlva_v_rook) && in_range(self.mvvlva_v_queen) && in_range(self.mvvlva_v_king)
        &&& in_range(self.mvvlva_a_pawn) && in_range(self.mvvlva_a_knight) && in_range(self.mvvlva_a_bishop)
        &&& in_range(self.mvvlva_a_rook) && in_range(self.mvvlva_a_queen) && in_range(self.mvvlva_a_king)
    }
}

fn fits(x: i32) -> (r: bool)
    ensures
        r == in_range(x),
{
    -PARAM_MAX <= x && x <= PARAM_MAX
}

impl SearchParams {
    /// Are the parameters such that the search can work with them?
    pub fn is_valid(&self) -> (r: bool)
        ensures
            r == self.wf(),
    {
        let margins = fits(self.asp_initial) && self.asp_initial >= 0 && fits(self.rfp_margin) && fits(
            self.razoring_margin,
        ) && fits(self.fp_margin) && fits(self.lmp_base) && fits(self.see_capture_margin) && fits(
            self.see_quiet_margin,
        ) && fits(self.delta_margin);
        let victims = fits(self.mvvlva_v_pawn) && fits(self.mvvlva_v_knight) && fits(self.mvvlva_v_bishop) && fits(
            self.mvvlva_v_rook,
        ) && fits(self.mvvlva_v_queen) && fits(self.mvvlva_v_king);
        let attackers = fits(self.mvvlva_a_pawn) && fits(self.mvvlva_a_knight) && fits(self.mvvlva_a_bishop) && fits(
            self.mvvlva_a_rook,
        ) && fits(self.mvvlva_a_queen) && fits(self.mvvlva_a_king);
        margins && victims && attackers && self.null_move_valid()
    }

    fn null_move_valid(&self) -> (r: bool)
        ensures
            r == {
                &&& in_range(self.nmp_base_r) && in_range(self.nmp_eval_max)
                &&& in_range(self.nmp_depth_divisor) && self.nmp_depth_divisor != 0
                &&& self.nmp_eval_divisor >= 1
                &&& self.least_null_reduction() >= -1
            },
    {
        if !fits(self.nmp_base_r) || !fits(self.nmp_eval_max) || !fits(self.nmp_depth_divisor) {
            return false;
        }
        if self.nmp_depth_divisor == 0 || self.nmp_eval_divisor < 1 {
            return false;
        }
        let by_depth: i32 = if self.nmp_depth_divisor < 0 {
            arith::divide(MAX_DEPTH, self.nmp_depth_divisor)
        } else {
            0
        };
        self.nmp_base_r + arith::min(self.nmp_eval_max, 0) + by_depth >= -1
    }
}

impl Default for SearchParams {
    fn default() -> (sp: Self)
        ensures
            sp.wf(),
    {
        SearchParams {
            asp_initial: 25,
            rfp_depth: 7,
            rfp_margin: 80,
            razoring_depth: 3,
            razoring_margin: 250,
            nmp_base_r: 3,
            nmp_depth_divisor: 4,
            nmp_eval_divisor: 200,
            nmp_eval_max: 3,
            fp_depth: 6,
            fp_margin: 110,
            lmp_depth: 5,
            lmp_base: 4,
            see_capture_margin: 90,
            see_quiet_margin: 25,
            delta_margin: 200,
            lmr_base: 75,
            lmr_divisor: 225,
            mvvlva_v_pawn: 100,
            mvvlva_v_knight: 320,
            mvvlva_v_bishop: 330,
            mvvlva_v_rook: 500,
            mvvlva_v_queen: 900,
            mvvlva_v_king: 0,
            mvvlva_a_pawn: 1,
            mvvlva_a_knight: 3,
            mvvlva_a_bishop: 3,
            mvvlva_a_rook: 5,
            mvvlva_a_queen: 9,
            mvvlva_a_king: 10,
        }
    }
}

} // verus!
