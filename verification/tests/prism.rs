use prismata::prism::{
    prism_action_step, prism_request_result, update_state_from_events, PreviewRefresh, PrismAction,
    PrismEvents, PrismNotice, PrismPhase, PrismRequest,
};

fn events(errors: &[&str], captures: usize, renders: &[u64], projections: &[u64]) -> PrismEvents {
    PrismEvents {
        errors: errors.iter().map(|s| s.to_string()).collect(),
        captures,
        renders: renders.to_vec(),
        projections: projections.to_vec(),
    }
}

#[test]
fn prism_starts_waiting() {
    let p = PrismPhase::default();
    assert!(p.is_waiting_for_capture());
    assert_eq!(p.id(), "WaitingForCapture");
    assert_eq!(PrismPhase::Rendering { render_id: 1 }.id(), "Rendering");
    assert_eq!(PrismPhase::Error { message: "x".to_string() }.id(), "Error");
}

#[test]
fn capture_moves_on_and_notifies_when_inactive() {
    let u = update_state_from_events(&PrismPhase::default(), &events(&[], 1, &[], &[]), false);
    assert!(matches!(u.phase, PrismPhase::Capture));
    assert_eq!(u.notices, vec![PrismNotice::Captured]);
    assert!(!u.disable_tool);
    let u = update_state_from_events(&PrismPhase::default(), &events(&[], 2, &[], &[]), true);
    assert!(matches!(u.phase, PrismPhase::Capture));
    assert!(u.notices.is_empty());
}

#[test]
fn only_the_awaited_render_counts() {
    let waiting = PrismPhase::Rendering { render_id: 42 };
    let u = update_state_from_events(&waiting, &events(&[], 0, &[7, 8], &[]), false);
    assert!(matches!(u.phase, PrismPhase::Rendering { render_id: 42 }));
    assert!(u.notices.is_empty());
    let u = update_state_from_events(&waiting, &events(&[], 0, &[7, 42, 42], &[]), false);
    assert!(matches!(u.phase, PrismPhase::Rendered));
    assert_eq!(u.notices, vec![PrismNotice::Reimagined]);
}

#[test]
fn projection_completes_back_to_waiting() {
    let projecting = PrismPhase::Projecting { request_id: 5 };
    let u = update_state_from_events(&projecting, &events(&[], 0, &[], &[5]), true);
    assert!(matches!(u.phase, PrismPhase::WaitingForCapture { show_mask: false }));
    assert!(u.disable_tool);
    assert!(u.notices.is_empty());
    let u = update_state_from_events(&projecting, &events(&[], 0, &[], &[3, 5, 5]), false);
    assert!(u.phase.is_waiting_for_capture());
    assert_eq!(u.notices, vec![PrismNotice::Projected, PrismNotice::Projected]);
    assert!(!u.disable_tool);
    let u = update_state_from_events(&projecting, &events(&[], 0, &[], &[3]), true);
    assert!(matches!(u.phase, PrismPhase::Projecting { request_id: 5 }));
}

#[test]
fn the_last_error_wins() {
    let u = update_state_from_events(
        &PrismPhase::Rendering { render_id: 1 },
        &events(&["first", "second"], 3, &[1], &[]),
        false,
    );
    match u.phase {
        PrismPhase::Error { message } => assert_eq!(message, "second"),
        _ => panic!("expected an error"),
    }
    assert!(u.notices.is_empty());
}

#[test]
fn other_phases_ignore_events() {
    let u = update_state_from_events(&PrismPhase::Rendered, &events(&[], 4, &[1], &[1]), false);
    assert!(matches!(u.phase, PrismPhase::Rendered));
    assert!(u.notices.is_empty());
}

#[test]
fn preview_cubes_index_their_own_corners() {
    let indices = prismata::prism::splat_mesh_indices(2);
    assert_eq!(indices.len(), 72);
    assert_eq!(&indices[..6], &[0, 3, 1, 1, 3, 2]);
    assert_eq!(&indices[36..42], &[24, 27, 25, 25, 27, 26]);
    assert!(indices[36..].iter().all(|&i| (24..48).contains(&i)));
    assert!(prismata::prism::splat_mesh_indices(0).is_empty());
}

#[test]
fn preview_rebuilds_once_a_change_settles() {
    let mut refresh = PreviewRefresh { pending: None };
    assert!(!refresh.due(1000));
    refresh.note_change(false, &PrismPhase::Rendered, 0);
    assert_eq!(refresh.pending, None);
    refresh.note_change(true, &PrismPhase::Rendered, 10);
    assert_eq!(refresh.pending, Some((10, 3)));
    // A change to the same phase keeps the first time.
    refresh.note_change(true, &PrismPhase::Rendered, 50);
    assert_eq!(refresh.pending, Some((10, 3)));
    assert!(!refresh.due(109));
    assert!(refresh.due(110));
    assert_eq!(refresh.pending, None);
    refresh.note_change(true, &PrismPhase::Capture, 200);
    refresh.note_change(true, &PrismPhase::Projecting { request_id: 1 }, 250);
    assert_eq!(refresh.pending, Some((250, 4)));
}

#[test]
fn retake_goes_back_to_waiting() {
    for phase in [PrismPhase::Capture, PrismPhase::Rendering { render_id: 3 }, PrismPhase::Rendered] {
        let (p, req) = prism_action_step(&phase, PrismAction::Retake, true);
        assert!(matches!(p, PrismPhase::WaitingForCapture { show_mask: false }));
        assert_eq!(req, None);
    }
    let (p, _) = prism_action_step(&PrismPhase::Projecting { request_id: 2 }, PrismAction::Retake, true);
    assert!(matches!(p, PrismPhase::Projecting { request_id: 2 }));
}

#[test]
fn reimagine_needs_a_mask_but_the_prompt_does_not() {
    let (p, req) = prism_action_step(&PrismPhase::Capture, PrismAction::Reimagine, false);
    assert!(matches!(p, PrismPhase::Capture));
    assert_eq!(req, None);
    let (_, req) = prism_action_step(&PrismPhase::Capture, PrismAction::Reimagine, true);
    assert_eq!(req, Some(PrismRequest::Reimagine));
    let (_, req) = prism_action_step(&PrismPhase::Capture, PrismAction::SubmitPrompt, false);
    assert_eq!(req, Some(PrismRequest::Reimagine));
}

#[test]
fn project_needs_a_mask() {
    let (_, req) = prism_action_step(&PrismPhase::Rendered, PrismAction::Project, false);
    assert_eq!(req, None);
    let (p, req) = prism_action_step(&PrismPhase::Rendered, PrismAction::Project, true);
    assert!(matches!(p, PrismPhase::Rendered));
    assert_eq!(req, Some(PrismRequest::Project));
    let (_, req) = prism_action_step(&PrismPhase::Capture, PrismAction::Project, true);
    assert_eq!(req, None);
}

#[test]
fn show_mask_and_dismiss_error() {
    let (p, _) = prism_action_step(&PrismPhase::default(), PrismAction::SetShowMask(true), false);
    assert!(matches!(p, PrismPhase::WaitingForCapture { show_mask: true }));
    let err = PrismPhase::Error { message: "bad".to_string() };
    let (p, _) = prism_action_step(&err, PrismAction::DismissError, false);
    assert!(matches!(p, PrismPhase::WaitingForCapture { show_mask: false }));
}

#[test]
fn request_results_move_the_phase_on() {
    let p = prism_request_result(&PrismPhase::Capture, PrismRequest::Reimagine, Ok(17));
    assert!(matches!(p, PrismPhase::Rendering { render_id: 17 }));
    let p = prism_request_result(&PrismPhase::Rendered, PrismRequest::Project, Ok(9));
    assert!(matches!(p, PrismPhase::Projecting { request_id: 9 }));
    let p = prism_request_result(&PrismPhase::Rendered, PrismRequest::Project, Err("no depth".to_string()));
    match p {
        PrismPhase::Error { message } => assert_eq!(message, "no depth"),
        _ => panic!("a failed request shows its error"),
    }
    let p = prism_request_result(&PrismPhase::Capture, PrismRequest::Project, Ok(9));
    assert!(matches!(p, PrismPhase::Capture));
}
