//! Pagination controller: decides when scrolling should fetch older
//! history and how to keep the visual scroll position stable afterwards.
//!
//! The controller is re-evaluated on every scroll event and cache change.
//! Near the top of the viewport it asks for the page older than the oldest
//! loaded message — unless it already saw an empty page for that chat,
//! which marks the history exhausted and stops the controller from
//! refetching the same empty page on every scroll tick. When a non-empty
//! page arrives, the content height measured before the splice is kept so
//! the next evaluation can restore the viewport to the same visual spot.
//!
//! Scroll offsets and content heights arrive as whole pixel readings; the
//! UI layer rounds whatever fractional values its renderer reports.

use vstd::prelude::*;

verus! {

/// What the viewport reports on evaluation.
#[derive(Clone, Copy, PartialEq, Eq, Structural, Debug)]
pub struct ScrollReadings {
    /// Distance from the top of the content to the viewport, in pixels.
    pub scroll_top: u64,
    /// Total height of the scrollable content, in pixels.
    pub content_height: u64,
}

/// The viewport shows the top of the loaded content.
pub open spec fn near_top(r: ScrollReadings) -> bool {
    r.scroll_top <= 1
}

/// The viewport shows the bottom of the loaded content (short content can
/// be near top and bottom at once).
pub open spec fn near_bottom(r: ScrollReadings) -> bool {
    r.content_height <= r.scroll_top
}

/// Mode of the controller between evaluations.
#[derive(Clone, Copy, PartialEq, Eq, Structural, Debug)]
pub enum ScrollMode {
    /// Inspect the viewport and decide whether anything is needed.
    CheckNeed,
    /// Scroll to the bottom on the next evaluation (after the user sent a
    /// message or switched chats).
    GoDown,
    /// A page was spliced in; restore the viewport by the height the
    /// content had before the splice.
    GoTo { prior_height: u64 },
}

/// What one evaluation asks the caller to do.
#[derive(Clone, Copy, Debug, PartialEq, Eq)]
pub struct ScrollPlan {
    /// Mark the inspected chat as read.
    pub mark_read: bool,
    /// Fetch the history page older than `older_than`.
    pub fetch: bool,
    /// Upper bound for the fetch: the oldest loaded creation time, or
    /// `None` to fetch the newest page of an empty window.
    pub older_than: Option<u64>,
    /// Scroll the viewport to the bottom.
    pub scroll_to_bottom: bool,
    /// Set the scroll offset to this value (the growth of the content
    /// since the fetch was started).
    pub scroll_to: Option<u64>,
}

/// The controller: its mode and the chats whose history is known to be
/// fully loaded.
pub struct Paginator {
    /// Current mode.
    pub mode: ScrollMode,
    /// Ids of chats for which a fetch returned an empty page.
    pub exhausted: Vec<u64>,
}

/// Mathematical view of a [`Paginator`].
#[verifier::ext_equal]
pub struct PaginatorView {
    pub mode: ScrollMode,
    pub exhausted: Seq<u64>,
}

impl View for Paginator {
    type V = PaginatorView;

    open spec fn view(&self) -> PaginatorView {
        PaginatorView { mode: self.mode, exhausted: self.exhausted@ }
    }
}

impl Paginator {
    /// A fresh controller in `CheckNeed` with no exhausted chats.
    pub fn new() -> (r: Paginator)
        ensures
            r@.mode == ScrollMode::CheckNeed,
            r@.exhausted.len() == 0,
    {
        Paginator { mode: ScrollMode::CheckNeed, exhausted: Vec::new() }
    }

    /// Requests a bottom scroll on the next evaluation; entered after the
    /// user sends a message or switches chats.
    pub fn go_down(&mut self)
        ensures
            final(self)@.mode == ScrollMode::GoDown,
            final(self)@.exhausted == old(self)@.exhausted,
    {
        self.mode = ScrollMode::GoDown;
    }

    /// Re-evaluates the controller for the chat under view.
    ///
    /// In `CheckNeed`, nothing happens unless the viewport is near the top;
    /// near the top it owes a mark-as-read exactly when the bottom is also
    /// visible and the chat has unread activity, and it owes a history
    /// fetch bounded by the oldest loaded creation time exactly when the
    /// chat's history is not exhausted. `GoDown` scrolls to the bottom
    /// once; `GoTo` restores the viewport by the content growth since the
    /// fetch; both then return to `CheckNeed`.
    pub fn evaluate(
        &mut self,
        chat_id: u64,
        oldest_loaded: Option<u64>,
        unread: bool,
        r: ScrollReadings,
    ) -> (plan: ScrollPlan)
        ensures
            final(self)@.exhausted == old(self)@.exhausted,
            final(self)@.mode == ScrollMode::CheckNeed,
            match old(self)@.mode {
                ScrollMode::CheckNeed => {
                    &&& !plan.scroll_to_bottom
                    &&& plan.scroll_to is None
                    &&& plan.mark_read == (near_top(r) && near_bottom(r) && unread)
                    &&& plan.fetch == (near_top(r) && !old(self)@.exhausted.contains(chat_id))
                    &&& plan.older_than == oldest_loaded
                },
                ScrollMode::GoDown => {
                    &&& plan.scroll_to_bottom
                    &&& plan.scroll_to is None
                    &&& !plan.mark_read
                    &&& !plan.fetch
                },
                ScrollMode::GoTo { prior_height } => {
                    &&& !plan.scroll_to_bottom
                    &&& plan.scroll_to == Some(
                        (if r.content_height >= prior_height {
                            (r.content_height - prior_height) as u64
                        } else {
                            0u64
                        }),
                    )
                    &&& !plan.mark_read
                    &&& !plan.fetch
                },
            },
    {
        let mode = self.mode;
        self.mode = ScrollMode::CheckNeed;
        match mode {
            ScrollMode::CheckNeed => {
                let top = r.scroll_top <= 1;
                let bottom = r.content_height <= r.scroll_top;
                let exhausted = contains_id(&self.exhausted, chat_id);
                ScrollPlan {
                    mark_read: top && bottom && unread,
                    fetch: top && !exhausted,
                    older_than: oldest_loaded,
                    scroll_to_bottom: false,
                    scroll_to: None,
                }
            },
            ScrollMode::GoDown => ScrollPlan {
                mark_read: false,
                fetch: false,
                older_than: oldest_loaded,
                scroll_to_bottom: true,
                scroll_to: None,
            },
            ScrollMode::GoTo { prior_height } => {
                let delta = if r.content_height >= prior_height {
                    r.content_height - prior_height
                } else {
                    0
                };
                ScrollPlan {
                    mark_read: false,
                    fetch: false,
                    older_than: oldest_loaded,
                    scroll_to_bottom: false,
                    scroll_to: Some(delta),
                }
            },
        }
    }

    /// Records the outcome of a history fetch. An empty page marks the
    /// chat's history exhausted and leaves the mode alone; a non-empty
    /// page — spliced into the cache by the reconciler — moves to `GoTo`
    /// with the height the content had when the fetch started.
    pub fn note_fetch_result(&mut self, chat_id: u64, returned: usize, height_before: u64)
        ensures
            returned == 0 ==> {
                &&& final(self)@.mode == old(self)@.mode
                &&& final(self)@.exhausted == (if old(self)@.exhausted.contains(chat_id) {
                    old(self)@.exhausted
                } else {
                    old(self)@.exhausted.push(chat_id)
                })
                &&& final(self)@.exhausted.contains(chat_id)
            },
            returned > 0 ==> {
                &&& final(self)@.mode == (ScrollMode::GoTo { prior_height: height_before })
                &&& final(self)@.exhausted == old(self)@.exhausted
            },
    {
        if returned == 0 {
            if !contains_id(&self.exhausted, chat_id) {
                self.exhausted.push(chat_id);
            }
            proof {
                assert(final(self)@.exhausted.contains(chat_id)) by {
                    if !old(self)@.exhausted.contains(chat_id) {
                        assert(final(self)@.exhausted.last() == chat_id);
                    }
                }
            }
        } else {
            self.mode = ScrollMode::GoTo { prior_height: height_before };
        }
    }
}

/// Whether the list contains the given id.
fn contains_id(ids: &Vec<u64>, id: u64) -> (r: bool)
    ensures
        r == ids@.contains(id),
{
    let n = ids.len();
    for k in 0..n
        invariant
            n == ids.len(),
            forall|i: int| 0 <= i < k ==> ids@[i] != id,
    {
        if ids[k] == id {
            return true;
        }
    }
    false
}

} // verus!
