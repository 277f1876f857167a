use ox_editor::decoration::{
    CallbackPhase, DecorItem, DecorOrigin, DecorPos, DecorProviderDef, DecorRange, DecorationError,
    Decorations, LineCallbackId, NamespaceId, ProviderDecorInput, ProviderId, RedrawEntry, RedrawId,
    WindowId,
};

fn provider(number: u32) -> ProviderId {
    ProviderId::from_namespace(NamespaceId(number))
}

fn line_provider(callback: u64) -> DecorProviderDef {
    DecorProviderDef { line: Some(LineCallbackId::new(callback)), ..DecorProviderDef::default() }
}

fn on_row(row: u32) -> DecorRange {
    DecorRange { start: DecorPos { row, col: 0 }, end: DecorPos { row, col: 5 } }
}

fn emitted(by: u32, row: u32, priority: u32) -> DecorItem {
    DecorItem::for_provider(ProviderDecorInput {
        provider: provider(by),
        phase: CallbackPhase::Line,
        window: WindowId(7),
        range: on_row(row),
        priority,
        ..ProviderDecorInput::default()
    })
}

fn extmark(order: u64, row: u32, priority: u32) -> DecorItem {
    DecorItem {
        origin: DecorOrigin::Extmark { namespace: 1, mark_id: 1, order },
        window: None,
        range: on_row(row),
        priority,
        winblend: None,
        virt_text: None,
        virt_lines: None,
    }
}

fn outermost(decorations: &mut Decorations, tick: u64) -> RedrawId {
    match decorations.enter_redraw(tick).unwrap() {
        RedrawEntry::Outermost(id) => id,
        RedrawEntry::Nested => panic!("a redraw is active"),
    }
}

#[test]
fn ranges_include_both_ends() {
    let range =
        DecorRange { start: DecorPos { row: 2, col: 3 }, end: DecorPos { row: 4, col: 1 } };
    assert!(!range.contains_row(1));
    assert!(range.contains_row(2));
    assert!(range.contains_row(4));
    assert!(!range.contains_row(5));
    assert!(range.contains(DecorPos { row: 2, col: 3 }));
    assert!(!range.contains(DecorPos { row: 2, col: 2 }));
    assert!(range.contains(DecorPos { row: 4, col: 1 }));
    assert!(!range.contains(DecorPos { row: 4, col: 2 }));
}

#[test]
fn providers_keep_their_registration_order() {
    let mut decorations = Decorations::new();
    assert_eq!(decorations.replace_provider(provider(5), line_provider(1)), Ok(None));
    assert_eq!(decorations.replace_provider(provider(3), line_provider(2)), Ok(None));
    assert_eq!(
        decorations.replace_provider(provider(5), line_provider(9)),
        Ok(Some(line_provider(1)))
    );
    assert_eq!(decorations.provider_order(), [provider(5), provider(3)]);
    assert_eq!(decorations.registration_index(provider(3)), Some(1));
    assert_eq!(decorations.provider_def(provider(5)), Some(&line_provider(9)));
}

#[test]
fn a_cleared_provider_keeps_its_slot() {
    let mut decorations = Decorations::new();
    let _ = decorations.replace_provider(provider(1), line_provider(1));
    let _ = decorations.replace_provider(provider(2), line_provider(2));
    assert_eq!(decorations.clear_provider(provider(1)), Some(line_provider(1)));
    assert_eq!(decorations.phase_callback(provider(1), CallbackPhase::Line), None);
    let _ = decorations.replace_provider(provider(1), line_provider(3));
    assert_eq!(decorations.registration_index(provider(1)), Some(0));
}

#[test]
fn a_removed_provider_is_forgotten() {
    let mut decorations = Decorations::new();
    let _ = decorations.replace_provider(provider(1), line_provider(1));
    let _ = decorations.replace_provider(provider(2), line_provider(2));
    assert_eq!(decorations.remove(provider(1)), Some(line_provider(1)));
    assert!(!decorations.is_registered(provider(1)));
    assert!(decorations.is_registered(provider(2)));
    assert_eq!(decorations.remove(provider(1)), None);
}

#[test]
fn a_disabled_provider_is_not_visited() {
    let mut decorations = Decorations::new();
    let _ = decorations.replace_provider(provider(1), line_provider(1));
    let _ = decorations.replace_provider(provider(2), line_provider(2));
    assert_eq!(decorations.set_enabled(provider(1), false), Ok(()));
    assert_eq!(decorations.phase_provider_ids(CallbackPhase::Line), vec![provider(2)]);
    assert_eq!(decorations.phase_provider_ids(CallbackPhase::Win), vec![]);
    assert_eq!(
        decorations.set_enabled(provider(9), true),
        Err(DecorationError::UnknownProvider)
    );
}

#[test]
fn one_redraw_is_active_at_a_time() {
    let mut decorations = Decorations::new();
    let id = outermost(&mut decorations, 40);
    assert_eq!(decorations.enter_redraw(41), Ok(RedrawEntry::Nested));
    assert_eq!(decorations.active_display_tick(id), Some(40));
    assert_eq!(decorations.finish_redraw(id), Ok(()));
    assert_eq!(decorations.finish_redraw(id), Err(DecorationError::NoActiveRedraw));
    let next = outermost(&mut decorations, 42);
    assert_ne!(next, id);
    assert_eq!(decorations.finish_redraw(id), Err(DecorationError::InvalidRedrawId));
}

#[test]
fn decorations_of_a_finished_redraw_are_gone() {
    let mut decorations = Decorations::new();
    let _ = decorations.replace_provider(provider(1), line_provider(1));
    let id = outermost(&mut decorations, 1);
    assert_eq!(decorations.push_ephemeral(id, emitted(1, 0, 10)), Ok(()));
    assert_eq!(decorations.query_line(id, &[], WindowId(7), 0).len(), 1);
    assert_eq!(decorations.query_line(id, &[], WindowId(8), 0).len(), 0);
    let _ = decorations.finish_redraw(id);
    assert_eq!(
        decorations.push_ephemeral(id, emitted(1, 0, 10)),
        Err(DecorationError::NoActiveRedraw)
    );
    let again = outermost(&mut decorations, 2);
    assert_eq!(decorations.query_line(again, &[], WindowId(7), 0).len(), 0);
}

#[test]
fn a_line_is_ordered_by_priority_origin_and_registration() {
    let mut decorations = Decorations::new();
    let _ = decorations.replace_provider(provider(2), line_provider(1));
    let _ = decorations.replace_provider(provider(1), line_provider(2));
    let id = outermost(&mut decorations, 1);
    let _ = decorations.push_ephemeral(id, emitted(1, 3, 5));
    let _ = decorations.push_ephemeral(id, emitted(2, 3, 5));
    let _ = decorations.push_ephemeral(id, emitted(2, 4, 1));
    let marks = [extmark(2, 3, 5), extmark(1, 3, 5), extmark(3, 3, 1)];
    let line = decorations.query_line(id, &marks, WindowId(7), 3);
    assert_eq!(
        line,
        vec![
            extmark(3, 3, 1),
            extmark(1, 3, 5),
            extmark(2, 3, 5),
            emitted(2, 3, 5),
            emitted(1, 3, 5),
        ]
    );
}

#[test]
fn errors_have_words() {
    assert_ne!(
        DecorationError::UnknownProvider.message(),
        DecorationError::NoActiveRedraw.message()
    );
    assert_ne!(
        DecorationError::InvalidRedrawId.message(),
        DecorationError::RedrawIdExhausted.message()
    );
}

#[test]
fn a_definition_is_handed_back_once() {
    let mut decorations = Decorations::new();
    let mut returned = Vec::new();
    let id = provider(1);
    assert_eq!(decorations.replace_provider(id, line_provider(1)), Ok(None));
    assert_eq!(decorations.replace_provider(provider(2), line_provider(2)), Ok(None));
    returned.extend(decorations.replace_provider(id, line_provider(3)).unwrap());
    returned.extend(decorations.clear_provider(id));
    returned.extend(decorations.clear_provider(id));
    returned.extend(decorations.remove(id));
    returned.extend(decorations.remove(id));
    let nothing = DecorProviderDef::default;
    assert_eq!(returned, [line_provider(1), line_provider(3), nothing(), nothing()]);
    assert_eq!(decorations.clear_provider(provider(2)), Some(line_provider(2)));
}

#[test]
fn a_plan_follows_registration_order() {
    let mut decorations = Decorations::new();
    for number in [5, 3, 8, 1] {
        let _ = decorations.replace_provider(provider(number), line_provider(u64::from(number)));
    }
    let _ = decorations.clear_provider(provider(3));
    let _ = decorations.set_enabled(provider(8), false);
    let _ = decorations.replace_provider(provider(5), line_provider(9));
    assert_eq!(decorations.phase_provider_ids(CallbackPhase::Line), [provider(5), provider(1)]);
    assert!(decorations.phase_provider_ids(CallbackPhase::Start).is_empty());
}
