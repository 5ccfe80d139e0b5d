//! The adaptive single-page-fit search: from a cheap probe render, shrink the
//! candidate page height while the fragment still fits one page, then expand
//! in small steps until it fits again. The search itself is a state machine
//! fed the page count of each render; a driver against the ideal renderer
//! model shows it terminates and lands on a single-page height.

use vstd::prelude::*;

verus! {

/// The probe height, and the amount the shrink phase subtracts.
pub const PROBE_HEIGHT_MM: u64 = 40;

/// The top and bottom margin of every non-probe render.
pub const PAGE_MARGIN_MM: u64 = 10;

/// The amount the expand phase adds per render.
pub const EXPAND_STEP_MM: u64 = 10;

/// The fixed height used when adaptive pagination is bypassed.
pub const FULL_PAGE_HEIGHT_MM: u64 = 297;

/// Where the search stands.
#[derive(Debug, PartialEq, Eq, Structural, Clone, Copy)]
pub enum FitPhase {
    /// The last render fit one page; try lower.
    Shrinking,
    /// The last render overflowed; grow back in small steps.
    Expanding,
    /// The height renders on exactly one page.
    Done,
}

/// The state of the single-page-fit search: the height to render at next (or
/// the height settled on, once done) and the phase.
#[derive(Debug, PartialEq, Eq, Structural, Clone, Copy)]
pub struct FitSearch {
    pub height: u64,
    pub phase: FitPhase,
}

impl FitSearch {
    /// Every reachable state keeps the height at or above the smallest
    /// candidate the shrink phase may test.
    pub open spec fn wf(self) -> bool {
        self.height >= PROBE_HEIGHT_MM + 2 * PAGE_MARGIN_MM
    }

    /// Begin the search from the page count of the probe render (probe
    /// height, no margin): the first candidate stacks that many probe
    /// heights plus both margins.
    pub fn start(probe_pages: u64) -> (s: FitSearch)
        requires
            probe_pages >= 1,
            probe_pages <= 0x0400_0000_0000_0000,
        ensures
            s.phase == FitPhase::Shrinking,
            s.height == probe_pages * PROBE_HEIGHT_MM + 2 * PAGE_MARGIN_MM,
            s.wf(),
    {
        FitSearch {
            height: probe_pages * PROBE_HEIGHT_MM + 2 * PAGE_MARGIN_MM,
            phase: FitPhase::Shrinking,
        }
    }

    /// Feed the page count of a render at `self.height` and take one step.
    /// While shrinking, a single page shrinks further until the floor, where
    /// the height (which rendered on one page) is settled; an overflow
    /// switches to expanding. While expanding, a single page settles the
    /// height, an overflow grows it one step.
    pub fn step(self, pages: u64) -> (s: FitSearch)
        requires
            self.phase != FitPhase::Done,
            self.wf(),
            pages >= 1,
            self.height + EXPAND_STEP_MM <= u64::MAX,
        ensures
            s.wf(),
            self.phase == FitPhase::Shrinking && pages == 1 && self.height - PROBE_HEIGHT_MM
                >= PROBE_HEIGHT_MM + 2 * PAGE_MARGIN_MM ==> s == (FitSearch {
                height: (self.height - PROBE_HEIGHT_MM) as u64,
                phase: FitPhase::Shrinking,
            }),
            self.phase == FitPhase::Shrinking && pages == 1 && self.height - PROBE_HEIGHT_MM
                < PROBE_HEIGHT_MM + 2 * PAGE_MARGIN_MM ==> s == (FitSearch {
                height: self.height,
                phase: FitPhase::Done,
            }),
            self.phase == FitPhase::Shrinking && pages > 1 ==> s == (FitSearch {
                height: (self.height + EXPAND_STEP_MM) as u64,
                phase: FitPhase::Expanding,
            }),
            self.phase == FitPhase::Expanding && pages == 1 ==> s == (FitSearch {
                height: self.height,
                phase: FitPhase::Done,
            }),
            self.phase == FitPhase::Expanding && pages > 1 ==> s == (FitSearch {
                height: (self.height + EXPAND_STEP_MM) as u64,
                phase: FitPhase::Expanding,
            }),
    {
        match self.phase {
            FitPhase::Shrinking => {
                if pages == 1 {
                    if self.height >= 2 * PROBE_HEIGHT_MM + 2 * PAGE_MARGIN_MM {
                        FitSearch {
                            height: self.height - PROBE_HEIGHT_MM,
                            phase: FitPhase::Shrinking,
                        }
                    } else {
                        FitSearch { height: self.height, phase: FitPhase::Done }
                    }
                } else {
                    FitSearch { height: self.height + EXPAND_STEP_MM, phase: FitPhase::Expanding }
                }
            },
            FitPhase::Expanding => {
                if pages == 1 {
                    FitSearch { height: self.height, phase: FitPhase::Done }
                } else {
                    FitSearch { height: self.height + EXPAND_STEP_MM, phase: FitPhase::Expanding }
                }
            },
            FitPhase::Done => unreached(),
        }
    }
}

/// The ceiling of a division by a positive divisor.
pub open spec fn spec_div_ceil(a: int, b: int) -> int
    recommends
        b > 0,
{
    (a + b - 1) / b
}

/// The ideal renderer: a fragment of the given content height fills that
/// many pages of the given page height and margins.
pub open spec fn spec_model_pages(content: int, height: int, margin: int) -> int
    recommends
        content >= 1,
        height > 2 * margin,
{
    spec_div_ceil(content, height - 2 * margin)
}

/// The ideal renderer, executably.
pub fn model_page_count(content: u64, height: u64, margin: u64) -> (r: u64)
    requires
        content >= 1,
        height > 2 * margin,
        content + height <= u64::MAX,
    ensures
        r as int == spec_model_pages(content as int, height as int, margin as int),
        r >= 1,
{
    let d = height - 2 * margin;
    let r = (content + d - 1) / d;
    proof {
        assert(r >= 1) by {
            assert(content + d - 1 >= d);
            assert((content + d - 1) as int / d as int >= 1) by (nonlinear_arith)
                requires
                    content as int >= 1,
                    d as int >= 1,
            ;
        };
    }
    r
}

/// The rank of a phase for termination: the search only moves down.
pub open spec fn spec_phase_rank(p: FitPhase) -> int {
    match p {
        FitPhase::Shrinking => 2,
        FitPhase::Expanding => 1,
        FitPhase::Done => 0,
    }
}

/// Run the whole search against the ideal renderer. The search always
/// terminates; the height it settles on renders the content on exactly one
/// page and wastes no room beyond the search's granularity: either one expand
/// step below it the content no longer fits, or the shrink floor ended the
/// search below two probe heights plus the margins.
pub fn fit_model(content: u64) -> (h: u64)
    requires
        1 <= content <= 0x4000_0000_0000_0000,
    ensures
        h as int > 2 * PAGE_MARGIN_MM,
        spec_model_pages(content as int, h as int, PAGE_MARGIN_MM as int) == 1,
        spec_model_pages(content as int, h as int - EXPAND_STEP_MM as int, PAGE_MARGIN_MM as int)
            > 1 || (h as int) < PROBE_HEIGHT_MM + 2 * PAGE_MARGIN_MM + PROBE_HEIGHT_MM,
{
    let p0 = model_page_count(content, PROBE_HEIGHT_MM, 0);
    proof {
        assert(p0 as int * 40 <= content as int + 39) by (nonlinear_arith)
            requires
                p0 as int == (content as int + 39) / 40,
                content as int >= 1,
        ;
    }
    let mut s = FitSearch::start(p0);
    loop
        invariant
            1 <= content <= 0x4000_0000_0000_0000,
            s.wf(),
            s.height as int <= content as int + PROBE_HEIGHT_MM + 2 * PAGE_MARGIN_MM
                + EXPAND_STEP_MM,
            s.phase == FitPhase::Expanding ==> s.height as int <= content as int + 2
                * PAGE_MARGIN_MM + EXPAND_STEP_MM,
            s.phase == FitPhase::Expanding ==> spec_model_pages(
                content as int,
                s.height as int - EXPAND_STEP_MM as int,
                PAGE_MARGIN_MM as int,
            ) > 1,
            s.phase == FitPhase::Done ==> spec_model_pages(
                content as int,
                s.height as int,
                PAGE_MARGIN_MM as int,
            ) == 1,
            s.phase == FitPhase::Done ==> (spec_model_pages(
                content as int,
                s.height as int - EXPAND_STEP_MM as int,
                PAGE_MARGIN_MM as int,
            ) > 1 || (s.height as int) < PROBE_HEIGHT_MM + 2 * PAGE_MARGIN_MM + PROBE_HEIGHT_MM),
        decreases
                spec_phase_rank(s.phase),
                (if s.phase == FitPhase::Shrinking {
                    s.height as int
                } else {
                    content as int + 2 * PAGE_MARGIN_MM + EXPAND_STEP_MM - s.height as int
                }),
    {
        match s.phase {
            FitPhase::Done => {
                return s.height;
            },
            _ => {
                let pages = model_page_count(content, s.height, PAGE_MARGIN_MM);
                proof {
                    if pages > 1 {
                        assert(content as int > s.height as int - 2 * PAGE_MARGIN_MM) by (
                        nonlinear_arith)
                            requires
                                pages as int == (content as int + (s.height as int - 2
                                    * PAGE_MARGIN_MM) - 1) / (s.height as int - 2 * PAGE_MARGIN_MM),
                                pages as int >= 2,
                                s.height as int - 2 * PAGE_MARGIN_MM >= 1,
                                content as int >= 1,
                        ;
                    }
                }
                s = s.step(pages);
            },
        }
    }
}

} // verus!
