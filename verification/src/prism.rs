//! The prism tool's workflow: capture the view, have it reimagined by the render server, then
//! project the result into the world. This module decides how the workflow moves on as captures,
//! renders, projections and errors come in.

use vstd::prelude::*;

verus! {

/// Where the prism workflow stands.
pub enum PrismPhase {
    WaitingForCapture { show_mask: bool },
    Capture,
    /// Waiting for the render with this id.
    Rendering { render_id: u64 },
    Rendered,
    /// Waiting for the projection with this id.
    Projecting { request_id: u64 },
    Error { message: String },
}

/// The short notices the workflow shows while the prism tool is not the active tool.
#[derive(Clone, Copy, Debug, PartialEq, Eq, Structural)]
pub enum PrismNotice {
    /// "Prism captured. Ready to reimagine."
    Captured,
    /// "Prism reimagination complete. Ready to project."
    Reimagined,
    /// "Prism successfully projected."
    Projected,
}

/// What arrived since the last update.
pub struct PrismEvents {
    /// Error messages, in order.
    pub errors: Vec<String>,
    /// How many captures of the view arrived.
    pub captures: usize,
    /// The ids of the renders that arrived, in order.
    pub renders: Vec<u64>,
    /// The ids of the projections that completed, in order.
    pub projections: Vec<u64>,
}

/// The outcome of an update: the new phase, the notices to show, and whether the prism tool is
/// to be switched off.
pub struct PrismUpdate {
    pub phase: PrismPhase,
    pub notices: Vec<PrismNotice>,
    pub disable_tool: bool,
}

/// A phase as plain values: its variant's number, its id (for renders and projections), its flag
/// and its message.
pub open spec fn phase_view(p: PrismPhase) -> (int, u64, bool, Seq<char>) {
    match p {
        PrismPhase::WaitingForCapture { show_mask } => (0, 0, show_mask, Seq::empty()),
        PrismPhase::Capture => (1, 0, false, Seq::empty()),
        PrismPhase::Rendering { render_id } => (2, render_id, false, Seq::empty()),
        PrismPhase::Rendered => (3, 0, false, Seq::empty()),
        PrismPhase::Projecting { request_id } => (4, request_id, false, Seq::empty()),
        PrismPhase::Error { message } => (5, 0, false, message@),
    }
}

/// How many of the ids are `id`.
pub open spec fn count_id(ids: Seq<u64>, id: u64) -> nat
    decreases ids.len(),
{
    if ids.len() == 0 {
        0
    } else {
        count_id(ids.drop_last(), id) + if ids.last() == id {
            1nat
        } else {
            0nat
        }
    }
}

/// The phase after an update, as plain values: the last error wins; otherwise a capture moves
/// a waiting prism to the capture phase, the awaited render moves it on to the rendered phase,
/// and the awaited projection brings it back to waiting for a capture (mask hidden).
pub open spec fn next_phase_view(
    p: (int, u64, bool, Seq<char>),
    errors: Seq<Seq<char>>,
    captures: int,
    renders: Seq<u64>,
    projections: Seq<u64>,
) -> (int, u64, bool, Seq<char>) {
    if errors.len() > 0 {
        (5, 0, false, errors.last())
    } else if p.0 == 0 && captures > 0 {
        (1, 0, false, Seq::empty())
    } else if p.0 == 2 && renders.contains(p.1) {
        (3, 0, false, Seq::empty())
    } else if p.0 == 4 && count_id(projections, p.1) > 0 {
        (0, 0, false, Seq::empty())
    } else {
        p
    }
}

/// The notices of an update: while the prism tool is not active, one per capture that reaches
/// a waiting prism, one for the awaited render, and one per completion of the awaited
/// projection.
pub open spec fn next_notices(
    p: (int, u64, bool, Seq<char>),
    errors: Seq<Seq<char>>,
    captures: int,
    renders: Seq<u64>,
    projections: Seq<u64>,
    is_active: bool,
) -> Seq<PrismNotice> {
    if errors.len() > 0 || is_active {
        Seq::empty()
    } else if p.0 == 0 {
        Seq::new(captures as nat, |i: int| PrismNotice::Captured)
    } else if p.0 == 2 && renders.contains(p.1) {
        seq![PrismNotice::Reimagined]
    } else if p.0 == 4 {
        Seq::new(count_id(projections, p.1), |i: int| PrismNotice::Projected)
    } else {
        Seq::empty()
    }
}

/// Whether an update switches the prism tool off: when the awaited projection completes while
/// the tool is active.
pub open spec fn next_disables_tool(
    p: (int, u64, bool, Seq<char>),
    errors: Seq<Seq<char>>,
    projections: Seq<u64>,
    is_active: bool,
) -> bool {
    errors.len() == 0 && is_active && p.0 == 4 && count_id(projections, p.1) > 0
}

fn clone_string(s: &String) -> (r: String)
    ensures
        r@ == s@,
{
    s.clone()
}

impl Default for PrismPhase {
    /// The phase a prism starts in: waiting for a capture, mask hidden.
    fn default() -> (p: PrismPhase)
        ensures
            phase_view(p) == (0int, 0u64, false, Seq::<char>::empty()),
    {
        PrismPhase::WaitingForCapture { show_mask: false }
    }
}

impl PrismPhase {
    /// Whether the prism is waiting for a capture.
    pub fn is_waiting_for_capture(&self) -> (b: bool)
        ensures
            b == (phase_view(*self).0 == 0),
    {
        match self {
            PrismPhase::WaitingForCapture { .. } => true,
            _ => false,
        }
    }

    /// The name of the phase.
    pub fn id(&self) -> (s: &'static str)
        ensures
            s@ == match self {
                PrismPhase::WaitingForCapture { .. } => "WaitingForCapture"@,
                PrismPhase::Capture => "Capture"@,
                PrismPhase::Rendering { .. } => "Rendering"@,
                PrismPhase::Rendered => "Rendered"@,
                PrismPhase::Projecting { .. } => "Projecting"@,
                PrismPhase::Error { .. } => "Error"@,
            },
    {
        match self {
            PrismPhase::WaitingForCapture { .. } => "WaitingForCapture",
            PrismPhase::Capture => "Capture",
            PrismPhase::Rendering { .. } => "Rendering",
            PrismPhase::Rendered => "Rendered",
            PrismPhase::Projecting { .. } => "Projecting",
            PrismPhase::Error { .. } => "Error",
        }
    }

    fn copy(&self) -> (p: PrismPhase)
        ensures
            phase_view(p) == phase_view(*self),
    {
        match self {
            PrismPhase::WaitingForCapture { show_mask } => PrismPhase::WaitingForCapture {
                show_mask: *show_mask,
            },
            PrismPhase::Capture => PrismPhase::Capture,
            PrismPhase::Rendering { render_id } => PrismPhase::Rendering { render_id: *render_id },
            PrismPhase::Rendered => PrismPhase::Rendered,
            PrismPhase::Projecting { request_id } => PrismPhase::Projecting {
                request_id: *request_id,
            },
            PrismPhase::Error { message } => PrismPhase::Error { message: clone_string(message) },
        }
    }
}

/// Whether `id` is among the ids.
fn contains_id(ids: &Vec<u64>, id: u64) -> (b: bool)
    ensures
        b == ids@.contains(id),
{
    let mut i: usize = 0;
    while i < ids.len()
        invariant
            i <= ids.len(),
            forall|j: int| 0 <= j < i ==> ids@[j] != id,
        decreases ids.len() - i,
    {
        if ids[i] == id {
            assert(ids@[i as int] == id);
            return true;
        }
        i += 1;
    }
    false
}

/// Moves the prism workflow on by what arrived since the last update (see [`next_phase_view`],
/// [`next_notices`], [`next_disables_tool`]).
pub fn update_state_from_events(
    phase: &PrismPhase,
    events: &PrismEvents,
    is_active: bool,
) -> (u: PrismUpdate)
    ensures
        phase_view(u.phase) == next_phase_view(
            phase_view(*phase),
            events.errors@.map_values(|s: String| s@),
            events.captures as int,
            events.renders@,
            events.projections@,
        ),
        u.notices@ == next_notices(
            phase_view(*phase),
            events.errors@.map_values(|s: String| s@),
            events.captures as int,
            events.renders@,
            events.projections@,
            is_active,
        ),
        u.disable_tool == next_disables_tool(
            phase_view(*phase),
            events.errors@.map_values(|s: String| s@),
            events.projections@,
            is_active,
        ),
{
    let ghost errs = events.errors@.map_values(|s: String| s@);
    let mut notices: Vec<PrismNotice> = Vec::new();
    if events.errors.len() > 0 {
        let last = events.errors.len() - 1;
        let message = clone_string(&events.errors[last]);
        assert(errs.last() == message@);
        return PrismUpdate { phase: PrismPhase::Error { message }, notices, disable_tool: false };
    }
    match phase {
        PrismPhase::WaitingForCapture { .. } => {
            let mut i: usize = 0;
            while i < events.captures
                invariant
                    i <= events.captures,
                    notices@ == (if is_active {
                        Seq::<PrismNotice>::empty()
                    } else {
                        Seq::new(i as nat, |j: int| PrismNotice::Captured)
                    }),
                decreases events.captures - i,
            {
                if !is_active {
                    notices.push(PrismNotice::Captured);
                }
                i += 1;
                assert(notices@ =~= (if is_active {
                    Seq::<PrismNotice>::empty()
                } else {
                    Seq::new(i as nat, |j: int| PrismNotice::Captured)
                }));
            }
            let next = if events.captures > 0 {
                PrismPhase::Capture
            } else {
                phase.copy()
            };
            PrismUpdate { phase: next, notices, disable_tool: false }
        },
        PrismPhase::Rendering { render_id } => {
            if contains_id(&events.renders, *render_id) {
                if !is_active {
                    notices.push(PrismNotice::Reimagined);
                }
                assert(notices@ =~= next_notices(
                    phase_view(*phase),
                    errs,
                    events.captures as int,
                    events.renders@,
                    events.projections@,
                    is_active,
                ));
                PrismUpdate { phase: PrismPhase::Rendered, notices, disable_tool: false }
            } else {
                PrismUpdate { phase: phase.copy(), notices, disable_tool: false }
            }
        },
        PrismPhase::Projecting { request_id } => {
            let mut matched: bool = false;
            let mut i: usize = 0;
            while i < events.projections.len()
                invariant
                    i <= events.projections.len(),
                    matched == (count_id(events.projections@.subrange(0, i as int), *request_id) > 0),
                    notices@ == (if is_active {
                        Seq::<PrismNotice>::empty()
                    } else {
                        Seq::new(
                            count_id(events.projections@.subrange(0, i as int), *request_id),
                            |j: int| PrismNotice::Projected,
                        )
                    }),
                decreases events.projections.len() - i,
            {
                let ghost before = events.projections@.subrange(0, i as int);
                assert(events.projections@.subrange(0, i + 1).drop_last() =~= before);
                if events.projections[i] == *request_id {
                    matched = true;
                    if !is_active {
                        notices.push(PrismNotice::Projected);
                    }
                }
                i += 1;
                assert(notices@ =~= (if is_active {
                    Seq::<PrismNotice>::empty()
                } else {
                    Seq::new(
                        count_id(events.projections@.subrange(0, i as int), *request_id),
                        |j: int| PrismNotice::Projected,
                    )
                }));
            }
            assert(events.projections@.subrange(0, i as int) =~= events.projections@);
            let next = if matched {
                PrismPhase::WaitingForCapture { show_mask: false }
            } else {
                phase.copy()
            };
            PrismUpdate { phase: next, notices, disable_tool: matched && is_active }
        },
        _ => PrismUpdate { phase: phase.copy(), notices, disable_tool: false },
    }
}


/// An update in which nothing arrived changes nothing: the phase stays as it is (a waiting
/// prism keeps its "Show mask" choice), no notice is shown and the tool stays on. A waiting
/// prism stays as it is, flag included, whenever no error and no capture arrived.
pub proof fn lemma_idle_update_keeps_phase(
    p: (int, u64, bool, Seq<char>),
    renders: Seq<u64>,
    projections: Seq<u64>,
    is_active: bool,
)
    ensures
        next_phase_view(p, Seq::empty(), 0, Seq::empty(), Seq::empty()) == p,
        next_notices(p, Seq::empty(), 0, Seq::empty(), Seq::empty(), is_active).len() == 0,
        !next_disables_tool(p, Seq::empty(), Seq::empty(), is_active),
        p.0 == 0 ==> next_phase_view(p, Seq::empty(), 0, renders, projections) == p,
{
    assert(!Seq::<u64>::empty().contains(p.1));
    assert(count_id(Seq::<u64>::empty(), p.1) == 0);
}

/// What the user does in the prism window.
#[derive(Clone, Copy, Debug, PartialEq, Eq, Structural)]
pub enum PrismAction {
    /// Ticks or clears "Show mask" while waiting for a capture.
    SetShowMask(bool),
    /// "Retake" on a capture or a rendered prism, or "Cancel and retake" while rendering.
    Retake,
    /// The "Reimagine" button of a capture; it is enabled only while the mask has a pixel set.
    Reimagine,
    /// Enter in the prompt of a capture, which asks for a reimagining whatever the mask holds.
    SubmitPrompt,
    /// The "Project" button of a rendered prism; it is enabled only while its mask has a pixel
    /// set.
    Project,
    /// "Ok" on an error.
    DismissError,
}

/// What the workflow asks of the outside after an action.
#[derive(Clone, Copy, Debug, PartialEq, Eq, Structural)]
pub enum PrismRequest {
    /// Send the capture to the render server.
    Reimagine,
    /// Project the rendered prism into the world.
    Project,
}

/// The phase after an action, as plain values: "Retake" goes back to waiting for a capture
/// (mask hidden) from a capture, a render under way or a rendered prism; dismissing an error
/// does the same; "Show mask" changes the flag of a waiting prism. Requests leave the phase as
/// it is until their result comes ([`request_next_phase_view`]); every other action changes
/// nothing.
pub open spec fn action_next_phase_view(
    p: (int, u64, bool, Seq<char>),
    action: PrismAction,
) -> (int, u64, bool, Seq<char>) {
    match action {
        PrismAction::SetShowMask(b) => if p.0 == 0 {
            (0, 0, b, Seq::empty())
        } else {
            p
        },
        PrismAction::Retake => if p.0 == 1 || p.0 == 2 || p.0 == 3 {
            (0, 0, false, Seq::empty())
        } else {
            p
        },
        PrismAction::DismissError => if p.0 == 5 {
            (0, 0, false, Seq::empty())
        } else {
            p
        },
        _ => p,
    }
}

/// The request an action makes: a reimagining from a capture, by the button only while the
/// mask has a pixel set, by the prompt always; a projection from a rendered prism whose mask
/// has a pixel set.
pub open spec fn action_request(
    p: (int, u64, bool, Seq<char>),
    action: PrismAction,
    mask_any: bool,
) -> Option<PrismRequest> {
    match action {
        PrismAction::Reimagine => if p.0 == 1 && mask_any {
            Some(PrismRequest::Reimagine)
        } else {
            None
        },
        PrismAction::SubmitPrompt => if p.0 == 1 {
            Some(PrismRequest::Reimagine)
        } else {
            None
        },
        PrismAction::Project => if p.0 == 3 && mask_any {
            Some(PrismRequest::Project)
        } else {
            None
        },
        _ => None,
    }
}

/// Moves the prism workflow on by one action of the user. `mask_any` tells whether the mask of
/// the capture or of the rendered prism has a pixel set. Returns the new phase and the request
/// to make, if any.
pub fn prism_action_step(phase: &PrismPhase, action: PrismAction, mask_any: bool) -> (r: (
    PrismPhase,
    Option<PrismRequest>,
))
    ensures
        phase_view(r.0) == action_next_phase_view(phase_view(*phase), action),
        r.1 == action_request(phase_view(*phase), action, mask_any),
{
    match action {
        PrismAction::SetShowMask(b) => match phase {
            PrismPhase::WaitingForCapture { .. } => (PrismPhase::WaitingForCapture { show_mask: b }, None),
            _ => (phase.copy(), None),
        },
        PrismAction::Retake => match phase {
            PrismPhase::Capture | PrismPhase::Rendering { .. } | PrismPhase::Rendered => (
                PrismPhase::WaitingForCapture { show_mask: false },
                None,
            ),
            _ => (phase.copy(), None),
        },
        PrismAction::DismissError => match phase {
            PrismPhase::Error { .. } => (PrismPhase::WaitingForCapture { show_mask: false }, None),
            _ => (phase.copy(), None),
        },
        PrismAction::Reimagine => match phase {
            PrismPhase::Capture => if mask_any {
                (phase.copy(), Some(PrismRequest::Reimagine))
            } else {
                (phase.copy(), None)
            },
            _ => (phase.copy(), None),
        },
        PrismAction::SubmitPrompt => match phase {
            PrismPhase::Capture => (phase.copy(), Some(PrismRequest::Reimagine)),
            _ => (phase.copy(), None),
        },
        PrismAction::Project => match phase {
            PrismPhase::Rendered => if mask_any {
                (phase.copy(), Some(PrismRequest::Project))
            } else {
                (phase.copy(), None)
            },
            _ => (phase.copy(), None),
        },
    }
}

/// The phase once a request has been answered, as plain values: from a capture, a reimagining
/// that was sent waits for its render; from a rendered prism, a projection that was sent waits
/// for its completion; a request that failed shows its message. A request that the phase does
/// not make leaves it as it is.
pub open spec fn request_next_phase_view(
    p: (int, u64, bool, Seq<char>),
    request: PrismRequest,
    res: Result<u64, Seq<char>>,
) -> (int, u64, bool, Seq<char>) {
    if (request == PrismRequest::Reimagine && p.0 == 1) || (request == PrismRequest::Project
        && p.0 == 3) {
        match res {
            Ok(id) => if request == PrismRequest::Reimagine {
                (2, id, false, Seq::empty())
            } else {
                (4, id, false, Seq::empty())
            },
            Err(m) => (5, 0, false, m),
        }
    } else {
        p
    }
}

/// Moves the prism workflow on by the answer to a request: the id of the render or projection
/// that was started, or the message of the error that stopped it.
pub fn prism_request_result(phase: &PrismPhase, request: PrismRequest, res: Result<u64, String>) -> (p: PrismPhase)
    ensures
        phase_view(p) == request_next_phase_view(
            phase_view(*phase),
            request,
            match res {
                Ok(id) => Ok(id),
                Err(m) => Err(m@),
            },
        ),
{
    let applies = match (request, phase) {
        (PrismRequest::Reimagine, PrismPhase::Capture) => true,
        (PrismRequest::Project, PrismPhase::Rendered) => true,
        _ => false,
    };
    if !applies {
        return phase.copy();
    }
    match res {
        Ok(id) => match request {
            PrismRequest::Reimagine => PrismPhase::Rendering { render_id: id },
            PrismRequest::Project => PrismPhase::Projecting { request_id: id },
        },
        Err(message) => PrismPhase::Error { message },
    }
}


/// A request that an action makes is answered from the phase the action leaves: a reimagining
/// that was sent waits for the render of its id, a projection for the projection of its id,
/// and a request that failed shows its message.
pub proof fn lemma_request_answered(
    p: (int, u64, bool, Seq<char>),
    action: PrismAction,
    mask_any: bool,
    res: Result<u64, Seq<char>>,
)
    requires
        action_request(p, action, mask_any) is Some,
    ensures
        ({
            let req = action_request(p, action, mask_any)->Some_0;
            let q = request_next_phase_view(action_next_phase_view(p, action), req, res);
            match res {
                Ok(id) => q == if req == PrismRequest::Reimagine {
                    (2int, id, false, Seq::<char>::empty())
                } else {
                    (4int, id, false, Seq::<char>::empty())
                },
                Err(m) => q == (5int, 0u64, false, m),
            }
        }),
{
}

/// The twelve triangles of a preview cube, over its 24 corners (four per face).
pub open spec fn cube_triangles() -> Seq<u32> {
    seq![
        0u32, 3, 1, 1, 3, 2, 4, 5, 7, 5, 6, 7, 8, 11, 9, 9, 11, 10, 12, 13, 15, 13, 14, 15, 16, 19,
        17, 17, 19, 18, 20, 21, 23, 21, 22, 23,
    ]
}

/// The triangle indices of the preview mesh of `count` splats: one cube per splat, whose
/// corners start at `24 * i` for the splat at `i`.
pub fn splat_mesh_indices(count: usize) -> (indices: Vec<u32>)
    requires
        count * 24 <= u32::MAX,
    ensures
        indices.len() == 36 * count,
        forall|k: int|
            0 <= k < 36 * count ==> #[trigger] indices@[k] == 24 * (k / 36) + cube_triangles()[k % 36],
{
    let pattern: [u32; 36] = [
        0, 3, 1, 1, 3, 2, 4, 5, 7, 5, 6, 7, 8, 11, 9, 9, 11, 10, 12, 13, 15, 13, 14, 15, 16, 19, 17,
        17, 19, 18, 20, 21, 23, 21, 22, 23,
    ];
    assert(pattern@ =~= cube_triangles());
    let mut indices: Vec<u32> = Vec::new();
    let mut i: usize = 0;
    while i < count
        invariant
            i <= count,
            count * 24 <= u32::MAX,
            pattern@ == cube_triangles(),
            indices.len() == 36 * i,
            forall|k: int|
                0 <= k < 36 * i ==> #[trigger] indices@[k] == 24 * (k / 36) + cube_triangles()[k % 36],
        decreases count - i,
    {
        let base = (i * 24) as u32;
        let mut j: usize = 0;
        while j < 36
            invariant
                i < count,
                count * 24 <= u32::MAX,
                base == i * 24,
                pattern@ == cube_triangles(),
                j <= 36,
                indices.len() == 36 * i + j,
                forall|k: int|
                    0 <= k < 36 * i + j ==> #[trigger] indices@[k] == 24 * (k / 36) + cube_triangles()[k % 36],
            decreases 36 - j,
        {
            assert(pattern[j as int] <= 23);
            let k = 36 * i + j;
            assert(k / 36 == i && k % 36 == j) by (nonlinear_arith)
                requires
                    k == 36 * i + j,
                    0 <= j < 36,
            ;
            indices.push(base + pattern[j]);
            j += 1;
        }
        i += 1;
    }
    indices
}

/// Every index of the preview mesh names one of its corners.
pub proof fn lemma_splat_mesh_indices_in_range(count: int, k: int)
    requires
        0 <= k < 36 * count,
    ensures
        24 * (k / 36) + cube_triangles()[k % 36] < 24 * count,
{
    assert(k / 36 < count) by (nonlinear_arith)
        requires
            0 <= k < 36 * count,
    ;
    assert(cube_triangles()[k % 36] <= 23);
}


/// When the preview of a rendered prism is rebuilt: a change of phase is noted with the time it
/// happened, and acted on once no other change has come for 100 ms.
pub struct PreviewRefresh {
    /// The time (in milliseconds) and the phase number of the change waiting to be acted on.
    pub pending: Option<(u64, u8)>,
}

/// The number of a phase's variant, as [`phase_view`] gives it.
pub fn phase_number(phase: &PrismPhase) -> (n: u8)
    ensures
        n as int == phase_view(*phase).0,
{
    match phase {
        PrismPhase::WaitingForCapture { .. } => 0,
        PrismPhase::Capture => 1,
        PrismPhase::Rendering { .. } => 2,
        PrismPhase::Rendered => 3,
        PrismPhase::Projecting { .. } => 4,
        PrismPhase::Error { .. } => 5,
    }
}

impl PreviewRefresh {
    /// Notes that the phase changed at `now_ms`, unless a change to the same phase is already
    /// waiting.
    pub fn note_change(&mut self, changed: bool, phase: &PrismPhase, now_ms: u64)
        ensures
            final(self).pending == if changed && (match old(self).pending {
                Some((_, n)) => n as int != phase_view(*phase).0,
                None => true,
            }) {
                Some((now_ms, phase_view(*phase).0 as u8))
            } else {
                old(self).pending
            },
    {
        let n = phase_number(phase);
        let differs = match self.pending {
            Some((_, m)) => m != n,
            None => true,
        };
        if changed && differs {
            self.pending = Some((now_ms, n));
        }
    }

    /// Whether the preview is rebuilt at `now_ms`: a change is waiting and 100 ms have passed
    /// since it was noted. Rebuilding clears it.
    pub fn due(&mut self, now_ms: u64) -> (rebuild: bool)
        ensures
            rebuild == (old(self).pending matches Some((t, _)) && now_ms >= t + 100),
            final(self).pending == if rebuild {
                None
            } else {
                old(self).pending
            },
    {
        match self.pending {
            Some((t, _)) => {
                if now_ms >= t && now_ms - t >= 100 {
                    self.pending = None;
                    true
                } else {
                    false
                }
            },
            None => false,
        }
    }
}

} // verus!
