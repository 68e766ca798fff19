//! Constraint tightening: the shading rules, applied in turn until a whole
//! pass leaves the board as it was.

use crate::board::Board;
use crate::evolution::{
    lemma_advances_trans, lemma_shades_trans, lemma_shading_keeps_stars_apart, lemma_shading_step,
};
use crate::model::BoardView;
use crate::regions::{lemma_regenerate_advances, lemma_regenerate_keeps_wf};
use crate::rules::contiguity::lemma_contiguity_shades;
use crate::rules::middle::lemma_middle_of_regions_shades;
use crate::rules::saturation::{lemma_blackout_lines_shades, lemma_blackout_regions_shades};
use crate::rules::star_adjacency::lemma_star_adjacencies_shades;
use crate::settled::lemma_unchanged_by_pass_is_settled;
use vstd::prelude::*;

verus! {

impl BoardView {
    /// The board after the blanks of every row, column and region that holds
    /// two stars were shaded.
    pub open spec fn after_saturation(self) -> BoardView {
        self.after_blackout_lines(true).after_blackout_lines(false).after_blackout_regions()
    }

    /// The board after one pass: saturation, star adjacency, middle
    /// elimination and contiguity, in that order, and then the filled cells
    /// dropped from the region lists.
    pub open spec fn after_pass(self) -> BoardView {
        let shaded = self.after_saturation().after_star_adjacencies();
        shaded.after_middle_elimination().after_contiguity().after_regenerate()
    }

    /// The board after passes were repeated until one changed nothing.
    ///
    /// A pass that changes a well-formed board leaves less to decide
    /// (`lemma_pass`), so the repetition ends with the first pass that
    /// changes nothing, and its result is a board that a further pass
    /// leaves as it is (`lemma_enforcement`).
    pub open spec fn after_enforcement(self) -> BoardView
        decreases self.measure(),
    {
        let next = self.after_pass();
        if next.measure() < self.measure() {
            next.after_enforcement()
        } else {
            next
        }
    }
}

/// Saturation shading gives a well-formed board with the same stars and
/// region lists.
pub proof fn lemma_saturation(v: BoardView)
    requires
        v.wf(),
    ensures
        v.after_blackout_lines(true).wf(),
        v.after_blackout_lines(true).after_blackout_lines(false).wf(),
        v.after_saturation().wf(),
        v.after_saturation().regions == v.regions,
        v.shades_to(v.after_blackout_lines(true)),
        v.shades_to(v.after_blackout_lines(true).after_blackout_lines(false)),
        v.shades_to(v.after_saturation()),
{
    let a = v.after_blackout_lines(true);
    lemma_blackout_lines_shades(v, true);
    lemma_shading_step(v, a);
    let b = a.after_blackout_lines(false);
    lemma_blackout_lines_shades(a, false);
    lemma_shading_step(a, b);
    lemma_shades_trans(v, a, b);
    let c = b.after_blackout_regions();
    lemma_blackout_regions_shades(b);
    lemma_shading_step(b, c);
    lemma_shades_trans(v, b, c);
}

/// One pass over a well-formed board gives a well-formed board whose region
/// lists hold no filled cell; it only shades; it gives the same board or one
/// with less left to decide; and it puts no star beside a star.
pub proof fn lemma_pass(v: BoardView)
    requires
        v.wf(),
    ensures
        v.after_pass().wf(),
        v.after_pass().regions_exact(),
        v.shades_to(v.after_pass()),
        v.advances_to(v.after_pass()),
        v.stars_apart() ==> v.after_pass().stars_apart(),
{
    let a = v.after_saturation();
    lemma_saturation(v);
    lemma_shading_step(v, a);
    let b = a.after_star_adjacencies();
    lemma_star_adjacencies_shades(a);
    lemma_shading_step(a, b);
    lemma_shades_trans(v, a, b);
    lemma_advances_trans(v, a, b);
    let c = b.after_middle_elimination();
    lemma_middle_of_regions_shades(b, b.regions.len());
    lemma_shading_step(b, c);
    lemma_shades_trans(v, b, c);
    lemma_advances_trans(v, b, c);
    let d = c.after_contiguity();
    lemma_contiguity_shades(c);
    lemma_shading_step(c, d);
    lemma_shades_trans(v, c, d);
    lemma_advances_trans(v, c, d);
    let e = d.after_regenerate();
    lemma_regenerate_keeps_wf(d);
    lemma_regenerate_advances(d);
    assert(d.shades_to(e));
    lemma_shades_trans(v, d, e);
    lemma_advances_trans(v, d, e);
    if v.stars_apart() {
        lemma_shading_keeps_stars_apart(v, e);
    }
}

/// Enforcement of a well-formed board gives a well-formed board whose
/// region lists hold no filled cell and which a further pass leaves as it
/// is; it only shades; and it puts no star beside a star.
pub proof fn lemma_enforcement(v: BoardView)
    requires
        v.wf(),
    ensures
        v.after_enforcement().wf(),
        v.after_enforcement().regions_exact(),
        v.after_enforcement().after_pass() == v.after_enforcement(),
        v.shades_to(v.after_enforcement()),
        v.advances_to(v.after_enforcement()),
        v.stars_apart() ==> v.after_enforcement().stars_apart(),
    decreases v.measure(),
{
    let next = v.after_pass();
    lemma_pass(v);
    if next.measure() < v.measure() {
        lemma_enforcement(next);
        lemma_shades_trans(v, next, next.after_enforcement());
        lemma_advances_trans(v, next, next.after_enforcement());
    }
}

impl Board {
    /// One pass of the shading rules.
    fn enforce_once(&mut self)
        requires
            old(self)@.wf(),
            old(self)@.stars_apart(),
        ensures
            final(self)@ == old(self)@.after_pass(),
    {
        self.blackout_rows();
        self.blackout_cols();
        self.blackout_regions();
        proof {
            lemma_saturation(old(self)@);
            lemma_shading_keeps_stars_apart(old(self)@, self@);
        }
        self.blackout_star_adjacencies();
        self.eliminate_middle_of_small_empty_regions();
        self.blackout_next_to_contiguity();
        self.regenerate_regions();
    }

    /// Applies the shading rules until a whole pass changes nothing. No two
    /// stars may stand side by side when this is called.
    ///
    /// No star is placed and no cell other than a blank one changes. The
    /// board that is left is settled: no blank cell lies in a saturated line
    /// or beside a star, and the region lists hold exactly the cells that
    /// are not filled.
    pub fn enforce_rules(&mut self)
        requires
            old(self)@.wf(),
            old(self)@.stars_apart(),
        ensures
            final(self)@ == old(self)@.after_enforcement(),
            final(self)@.after_pass() == final(self)@,
            final(self)@.settled(),
            final(self)@.wf(),
            final(self)@.regions_exact(),
            final(self)@.stars_apart(),
            old(self)@.shades_to(final(self)@),
            old(self)@.advances_to(final(self)@),
    {
        let mut past_self = self.clone();
        loop
            invariant_except_break
                self@.wf(),
                self@.stars_apart(),
                past_self@ == self@,
                self@.after_enforcement() == old(self)@.after_enforcement(),
            ensures
                self@ == old(self)@.after_enforcement(),
            decreases self@.measure(),
        {
            proof {
                lemma_pass(self@);
            }
            self.enforce_once();
            if past_self == *self {
                break ;
            } else {
                past_self = self.clone();
            }
        }
        proof {
            lemma_enforcement(old(self)@);
            lemma_unchanged_by_pass_is_settled(self@);
        }
    }
}

} // verus!
