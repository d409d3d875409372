use sekirotool::fov;
use sekirotool::fps_unlock::{framelock_plan, framespeed_plan, UnlockStage};
use sekirotool::patch::{PatchAction, PatchEvent, PatchPlan, PatchState};
use sekirotool::vm::{Page, Prot};

/// Drives a plan, answering each action from the given closure, and returns
/// the actions asked for.
fn drive(plan: &PatchPlan, mut answer: impl FnMut(&PatchAction) -> PatchEvent) -> Vec<PatchAction> {
    let (mut state, mut action) = PatchState::start(plan);
    let mut actions = vec![action];
    loop {
        if let PatchAction::Finish(_) = action {
            assert!(!state.accepts(plan, &PatchEvent::Written));
            assert!(!state.accepts(plan, &PatchEvent::Inspected));
            return actions;
        }
        // A patch accepts at most 10 events.
        assert!(actions.len() <= 10);
        let event = answer(&action);
        assert!(state.accepts(plan, &event), "event {:?} refused in {:?}", event, state);
        let (next, next_action) = state.step(plan, event);
        state = next;
        action = next_action;
        actions.push(action);
    }
}

fn page() -> Page {
    Page { base: 0x140001000, end: 0x140002000, size: 0x1000, prot: Prot::XR }
}

fn page_of(address: usize) -> Page {
    let base = address & !0xfff;
    Page { base, end: base + 0x1000, size: 0x1000, prot: Prot::XR }
}

fn answers(found: usize, displacement: u32, unlock: Option<Prot>) -> impl FnMut(&PatchAction) -> PatchEvent {
    move |action| match action {
        PatchAction::FindSignature(_) => PatchEvent::SignatureFound(found),
        PatchAction::ReadDisplacement(_) => PatchEvent::DisplacementRead(displacement),
        PatchAction::Inspect(_) => PatchEvent::Inspected,
        PatchAction::FindPage(address) => PatchEvent::PageFound(page_of(*address)),
        PatchAction::Protect { prot, .. } => {
            if *prot == Prot::XR {
                PatchEvent::ProtectionChanged(Some(Prot::XRW))
            } else {
                PatchEvent::ProtectionChanged(unlock)
            }
        }
        PatchAction::Write { .. } => PatchEvent::Written,
        PatchAction::Finish(_) => unreachable!(),
    }
}

fn summary(actions: &[PatchAction]) -> Vec<String> {
    actions
        .iter()
        .map(|a| match a {
            PatchAction::FindSignature(p) => format!("find {}", p),
            PatchAction::ReadDisplacement(a) => format!("displacement {:#x}", a),
            PatchAction::Inspect(a) => format!("inspect {:#x}", a),
            PatchAction::FindPage(a) => format!("page {:#x}", a),
            PatchAction::Protect { page, prot } => format!("protect {:#x} {:?}", page.base, prot),
            PatchAction::Write { address, value } => format!("write {:#x} {:#x}", address, value),
            PatchAction::Finish(r) => format!("finish {:?}", r),
        })
        .collect()
}

#[test]
fn framelock_patch_writes_the_frame_time_and_restores_protection() {
    let frame_time = (1000.0f32 / 144.0 / 1000.0).to_bits();
    let plan = framelock_plan(frame_time);
    let actions = drive(&plan, answers(0x140001100, 0, Some(Prot::XR)));
    assert_eq!(
        summary(&actions),
        vec![
            "find C7 43 ?? ?? ?? ?? ?? 4C 89 AB".to_string(),
            "page 0x140001103".to_string(),
            "protect 0x140001000 XRW".to_string(),
            "inspect 0x140001103".to_string(),
            format!("write 0x140001103 {:#x}", frame_time),
            "inspect 0x140001103".to_string(),
            "protect 0x140001000 XR".to_string(),
            "page 0x140001103".to_string(),
            "finish Ok(())".to_string(),
        ]
    );
}

#[test]
fn framespeed_patch_follows_the_displacement() {
    let speed_fix = (60.0f32).to_bits();
    let plan = framespeed_plan(speed_fix);
    // The displacement lies 15 bytes past the match; the value lies 4 bytes
    // past the displacement plus the displacement.
    let actions = drive(&plan, answers(0x140001000, 0x80, Some(Prot::R)));
    assert_eq!(
        summary(&actions),
        vec![
            "find F3 0F 58 ?? 0F C6 ?? 00 0F 51 ?? F3 0F 59 ?? ?? ?? ?? ?? 0F 2F".to_string(),
            "displacement 0x14000100f".to_string(),
            "page 0x140001093".to_string(),
            "protect 0x140001000 RW".to_string(),
            "inspect 0x140001093".to_string(),
            format!("write 0x140001093 {:#x}", speed_fix),
            "inspect 0x140001093".to_string(),
            "protect 0x140001000 R".to_string(),
            "page 0x140001093".to_string(),
            "finish Ok(())".to_string(),
        ]
    );
}

#[test]
fn framespeed_patch_reads_the_displacement_as_signed() {
    let speed_fix = (60.0f32).to_bits();
    let plan = framespeed_plan(speed_fix);
    // 0xFFFF_F000 is -0x1000: the operand lies 0x1000 bytes before the end
    // of the instruction, 19 bytes past the match.
    let actions = drive(&plan, answers(0x140001000, 0xFFFF_F000, Some(Prot::R)));
    assert_eq!(
        summary(&actions),
        vec![
            "find F3 0F 58 ?? 0F C6 ?? 00 0F 51 ?? F3 0F 59 ?? ?? ?? ?? ?? 0F 2F".to_string(),
            "displacement 0x14000100f".to_string(),
            "page 0x140000013".to_string(),
            "protect 0x140000000 RW".to_string(),
            "inspect 0x140000013".to_string(),
            format!("write 0x140000013 {:#x}", speed_fix),
            "inspect 0x140000013".to_string(),
            "protect 0x140000000 R".to_string(),
            "page 0x140000013".to_string(),
            "finish Ok(())".to_string(),
        ]
    );
}

#[test]
fn fov_reads_the_displacement_as_unsigned() {
    let plan = fov::patch_plan(1);
    let (state, _) = PatchState::start(&plan);
    let (state, action) = state.step(&plan, PatchEvent::SignatureFound(0x140001000));
    assert!(matches!(action, PatchAction::ReadDisplacement(0x140001008)));
    let (_, action) = state.step(&plan, PatchEvent::DisplacementRead(0xFFFF_F000));
    assert!(matches!(action, PatchAction::Inspect(0x24000000c)));
}

#[test]
fn fov_patch_inspects_early_and_leaves_the_page_read_only() {
    let fov_value = 0.017453292f32.to_bits();
    let plan = fov::patch_plan(fov_value);
    let actions = drive(&plan, answers(0x140001000, 0x10, Some(Prot::R)));
    assert_eq!(
        summary(&actions),
        vec![
            "find ".to_string(),
            "displacement 0x140001008".to_string(),
            "inspect 0x14000101c".to_string(),
            "page 0x14000101c".to_string(),
            "protect 0x140001000 RW".to_string(),
            format!("write 0x14000101c {:#x}", fov_value),
            "inspect 0x14000101c".to_string(),
            "protect 0x140001000 R".to_string(),
            "finish Ok(())".to_string(),
        ]
    );
}

#[test]
fn failed_unlock_ends_the_patch_without_writing() {
    let actions = drive(&framelock_plan(1), answers(0x140001100, 0, None));
    assert!(!actions.iter().any(|a| matches!(a, PatchAction::Write { .. })));
    assert_eq!(summary(&actions).last().unwrap(), "finish Err(\"framelock mprotect failed.\")");

    let actions = drive(&framespeed_plan(1), answers(0x140001000, 0, None));
    assert!(!actions.iter().any(|a| matches!(a, PatchAction::Write { .. })));
    assert_eq!(summary(&actions).last().unwrap(), "finish Err(\"framespeed mprotect failed\")");
}

#[test]
fn fov_refuses_a_failed_unlock() {
    let plan = fov::patch_plan(1);
    let (state, _) = PatchState::start(&plan);
    let (state, _) = state.step(&plan, PatchEvent::SignatureFound(0x140001000));
    let (state, _) = state.step(&plan, PatchEvent::DisplacementRead(0x10));
    let (state, _) = state.step(&plan, PatchEvent::Inspected);
    let (state, action) = state.step(&plan, PatchEvent::PageFound(page()));
    assert!(matches!(action, PatchAction::Protect { prot: Prot::RW, .. }));
    assert!(!state.accepts(&plan, &PatchEvent::ProtectionChanged(None)));
    assert!(state.accepts(&plan, &PatchEvent::ProtectionChanged(Some(Prot::R))));
}

#[test]
fn events_out_of_turn_or_out_of_range_are_refused() {
    let plan = framelock_plan(1);
    let (state, _) = PatchState::start(&plan);
    assert!(!state.accepts(&plan, &PatchEvent::Written));
    assert!(!state.accepts(&plan, &PatchEvent::SignatureFound(usize::MAX)));
    assert!(state.accepts(&plan, &PatchEvent::SignatureFound(usize::MAX - 3)));
    let (state, _) = state.step(&plan, PatchEvent::SignatureFound(0x140001100));
    let elsewhere = Page { base: 0x1000, end: 0x2000, size: 0x1000, prot: Prot::R };
    assert!(!state.accepts(&plan, &PatchEvent::PageFound(elsewhere)));
    assert!(state.accepts(&plan, &PatchEvent::PageFound(page())));

    let plan = framespeed_plan(1);
    let (state, _) = PatchState::start(&plan);
    let (state, _) = state.step(&plan, PatchEvent::SignatureFound(usize::MAX - 19));
    assert!(state.accepts(&plan, &PatchEvent::DisplacementRead(0)));
    assert!(!state.accepts(&plan, &PatchEvent::DisplacementRead(1)));
    // A negative displacement brings the address back in range.
    assert!(state.accepts(&plan, &PatchEvent::DisplacementRead(0xFFFF_FFFF)));
    let (_, action) = state.step(&plan, PatchEvent::DisplacementRead(0xFFFF_FFFF));
    assert!(matches!(action, PatchAction::FindPage(a) if a == usize::MAX - 1));

    let (state, _) = PatchState::start(&plan);
    let (state, _) = state.step(&plan, PatchEvent::SignatureFound(0));
    // The field lies at 15; 15 + 4 - 0x14 is below 0.
    assert!(state.accepts(&plan, &PatchEvent::DisplacementRead(0xFFFF_FFED)));
    assert!(!state.accepts(&plan, &PatchEvent::DisplacementRead(0xFFFF_FFEC)));
}

#[test]
fn unlock_stages_run_in_order_and_stop_at_the_first_error() {
    let stage = UnlockStage::start();
    assert!(matches!(stage, UnlockStage::Pausing));
    let stage = stage.advance(Ok(()));
    assert!(matches!(stage, UnlockStage::Framelock));
    let stage = stage.advance(Ok(()));
    assert!(matches!(stage, UnlockStage::Framespeed));
    let stage = stage.advance(Ok(()));
    assert!(matches!(stage, UnlockStage::Resuming));
    let stage = stage.advance(Ok(()));
    assert!(matches!(stage, UnlockStage::Done(Ok(()))));

    let stage = UnlockStage::start().advance(Ok(())).advance(Err("framelock mprotect failed."));
    assert!(matches!(stage, UnlockStage::Done(Err("framelock mprotect failed."))));
    let stage = UnlockStage::start().advance(Err("failed to pause target."));
    assert!(matches!(stage, UnlockStage::Done(Err("failed to pause target."))));
}
