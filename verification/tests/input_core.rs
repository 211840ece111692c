use reovim_core::bind::{KeyBind, KeyMap};
use reovim_core::event::{
    Event, KeyCode, KeyEvent, KeyEventKind, KeyModifiers, MediaKeyCode, ModifierKeyCode,
    MouseEvent, MOD_CONTROL, MOD_SHIFT,
};
use reovim_core::modd::{ExtraMod, Mod, ModExtension, TelescopeMod};
use reovim_core::state::{
    handle_event, handle_key, handle_timeout, InputOutcome, LookupError, Mem, State,
};
use reovim_core::Action;

fn key(c: char) -> KeyEvent {
    KeyEvent::new(KeyCode::Char(c), KeyModifiers::empty(), KeyEventKind::Press)
}

fn keyseq(s: &str) -> Vec<KeyEvent> {
    s.chars().map(key).collect()
}

fn act(id: u64) -> Action {
    Action { id }
}

#[test]
fn normalization_shift_c_equals_capital_c() {
    let shifted = KeyEvent::new(
        KeyCode::Char('c'),
        KeyModifiers::from_bits(MOD_SHIFT),
        KeyEventKind::Press,
    );
    let capital = KeyEvent::new(KeyCode::Char('C'), KeyModifiers::empty(), KeyEventKind::Press);
    let plain = KeyEvent::new(KeyCode::Char('c'), KeyModifiers::empty(), KeyEventKind::Press);
    assert!(shifted == capital);
    assert!(plain != shifted);
    assert!(plain != capital);
}

#[test]
fn normalization_canonical_forms_agree() {
    let shifted = KeyEvent::new(
        KeyCode::Char('c'),
        KeyModifiers::from_bits(MOD_SHIFT),
        KeyEventKind::Press,
    );
    let capital = KeyEvent::new(KeyCode::Char('C'), KeyModifiers::empty(), KeyEventKind::Press);
    let a = shifted.normalize_case();
    let b = capital.normalize_case();
    assert_eq!(a.code, b.code);
    assert_eq!(a.modifiers, b.modifiers);
    assert_eq!(a.kind, b.kind);
}

#[test]
fn normalization_uppercase_forces_shift() {
    let capital = KeyEvent::new(KeyCode::Char('C'), KeyModifiers::empty(), KeyEventKind::Press);
    let n = capital.normalize_case();
    assert_eq!(n.code, KeyCode::Char('C'));
    assert!(n.modifiers.contains(MOD_SHIFT));
}

#[test]
fn normalization_leaves_named_keys_alone() {
    let esc = KeyEvent::new(KeyCode::Esc, KeyModifiers::from_bits(MOD_SHIFT), KeyEventKind::Press);
    let n = esc.normalize_case();
    assert_eq!(n.code, KeyCode::Esc);
    assert_eq!(n.modifiers, KeyModifiers::from_bits(MOD_SHIFT));
}

#[test]
fn trie_longest_match_fires_once() {
    let mut km = KeyMap::new();
    km.bind(Mod::Normal, &keyseq("gg"), act(1), false);
    let mut st = State::new();
    let o1 = handle_key(&mut st, &km, key('g'));
    assert!(o1.fired.is_empty());
    assert!(!o1.unbound);
    assert!(o1.deadline.is_none());
    assert_eq!(st.key_record.len(), 1);
    let o2 = handle_key(&mut st, &km, key('g'));
    assert_eq!(o2.fired, vec![act(1)]);
    assert!(!o2.unbound);
    assert!(o2.deadline.is_none());
    assert!(st.key_record.is_empty());
}

#[test]
fn trie_dead_end_discards_and_reports_unbound() {
    let mut km = KeyMap::new();
    km.bind(Mod::Normal, &keyseq("gg"), act(1), false);
    let mut st = State::new();
    let o1 = handle_key(&mut st, &km, key('g'));
    assert!(o1.fired.is_empty());
    let o2 = handle_key(&mut st, &km, key('x'));
    assert!(o2.fired.is_empty());
    assert!(o2.unbound);
    assert!(st.key_record.is_empty());
}

#[test]
fn ambiguous_prefix_times_out_to_shorter_binding() {
    let mut km = KeyMap::new();
    km.bind(Mod::Normal, &keyseq("d"), act(2), false);
    km.bind(Mod::Normal, &keyseq("dd"), act(3), false);
    let mut st = State::new();
    let o1 = handle_key(&mut st, &km, key('d'));
    assert!(o1.fired.is_empty());
    assert_eq!(o1.deadline, Some(act(2)));
    let fired = handle_timeout(&mut st, &km);
    assert_eq!(fired, Some(act(2)));
    assert!(st.key_record.is_empty());
}

#[test]
fn ambiguous_prefix_second_key_wins_over_deadline() {
    let mut km = KeyMap::new();
    km.bind(Mod::Normal, &keyseq("d"), act(2), false);
    km.bind(Mod::Normal, &keyseq("dd"), act(3), false);
    let mut st = State::new();
    let o1 = handle_key(&mut st, &km, key('d'));
    assert_eq!(o1.deadline, Some(act(2)));
    let o2 = handle_key(&mut st, &km, key('d'));
    assert_eq!(o2.fired, vec![act(3)]);
    assert!(o2.deadline.is_none());
    assert!(st.key_record.is_empty());
}

#[test]
fn timeout_on_pure_prefix_fires_nothing() {
    let mut km = KeyMap::new();
    km.bind(Mod::Normal, &keyseq("gg"), act(1), false);
    let mut st = State::new();
    handle_key(&mut st, &km, key('g'));
    let fired = handle_timeout(&mut st, &km);
    assert_eq!(fired, None);
    assert_eq!(st.key_record.len(), 1);
}

#[test]
fn abandoned_bound_prefix_fires_then_reevaluates() {
    let mut km = KeyMap::new();
    km.bind(Mod::Normal, &keyseq("a"), act(1), false);
    km.bind(Mod::Normal, &keyseq("ab"), act(2), false);
    km.bind(Mod::Normal, &keyseq("x"), act(3), false);
    let mut st = State::new();
    let o1 = handle_key(&mut st, &km, key('a'));
    assert_eq!(o1.deadline, Some(act(1)));
    let o2 = handle_key(&mut st, &km, key('x'));
    assert_eq!(o2.fired, vec![act(1), act(3)]);
    assert!(!o2.unbound);
    assert!(st.key_record.is_empty());
}

#[test]
fn later_binding_overwrites_earlier_one() {
    let mut km = KeyMap::new();
    km.bind(Mod::Normal, &keyseq("x"), act(1), false);
    km.bind(Mod::Normal, &keyseq("x"), act(2), false);
    let mut st = State::new();
    let o = handle_key(&mut st, &km, key('x'));
    assert_eq!(o.fired, vec![act(2)]);
}

#[test]
fn mode_transition_clears_pending() {
    let mut km = KeyMap::new();
    km.bind(Mod::Normal, &keyseq("gg"), act(1), false);
    km.bind(Mod::Insert(ModExtension::Normal), &keyseq("j"), act(7), false);
    let mut st = State::new();
    handle_key(&mut st, &km, key('g'));
    assert_eq!(st.key_record.len(), 1);
    st.transition(Mod::Insert(ModExtension::Normal));
    assert!(st.key_record.is_empty());
    let o = handle_key(&mut st, &km, key('j'));
    assert_eq!(o.fired, vec![act(7)]);
}

#[test]
fn privileged_base_binding_beats_extra_mode() {
    let esc = KeyEvent::new(KeyCode::Esc, KeyModifiers::empty(), KeyEventKind::Press);
    let mut km = KeyMap::new();
    km.bind(Mod::Normal, &vec![esc], act(9), true);
    km.bind_extra(&"telescope".to_string(), &vec![esc], act(8), false);
    let mut mem = Mem::new();
    mem.register("telescope".to_string());
    let mut st = State::new();
    st.activate_extra_mode(&"telescope".to_string(), &mem).unwrap();
    let o = handle_key(&mut st, &km, esc);
    assert_eq!(o.fired, vec![act(9)]);
}

#[test]
fn unprivileged_base_binding_is_shadowed_by_extra_mode() {
    let esc = KeyEvent::new(KeyCode::Esc, KeyModifiers::empty(), KeyEventKind::Press);
    let mut km = KeyMap::new();
    km.bind(Mod::Normal, &vec![esc], act(9), false);
    km.bind_extra(&"telescope".to_string(), &vec![esc], act(8), false);
    let mut mem = Mem::new();
    mem.register("telescope".to_string());
    let mut st = State::new();
    st.activate_extra_mode(&"telescope".to_string(), &mem).unwrap();
    let o = handle_key(&mut st, &km, esc);
    assert_eq!(o.fired, vec![act(8)]);
}

#[test]
fn activate_unknown_extra_mode_fails() {
    let mem = Mem::new();
    let mut st = State::new();
    let r = st.activate_extra_mode(&"telescope".to_string(), &mem);
    assert_eq!(r, Err(LookupError::NotRegistered));
    assert!(st.extra_mod.is_none());
}

#[test]
fn deactivate_extra_mode_clears_unconditionally() {
    let mut mem = Mem::new();
    mem.register("telescope".to_string());
    let mut st = State::new();
    st.activate_extra_mode(&"telescope".to_string(), &mem).unwrap();
    assert!(st.extra_mod.is_some());
    st.deactivate_extra_mode();
    assert!(st.extra_mod.is_none());
}

#[test]
fn bindings_are_normalized_across_case_forms() {
    let shifted = KeyEvent::new(
        KeyCode::Char('c'),
        KeyModifiers::from_bits(MOD_SHIFT),
        KeyEventKind::Press,
    );
    let capital = KeyEvent::new(KeyCode::Char('C'), KeyModifiers::empty(), KeyEventKind::Press);
    let mut km = KeyMap::new();
    km.bind(Mod::Normal, &vec![shifted], act(4), false);
    let mut st = State::new();
    let o = handle_key(&mut st, &km, capital);
    assert_eq!(o.fired, vec![act(4)]);
}

#[test]
fn non_key_events_pass_through() {
    let km = KeyMap::new();
    let mut st = State::new();
    let out = handle_event(&mut st, &km, Event::Paste("hello".to_string()));
    match out {
        InputOutcome::Passthrough(Event::Paste(s)) => assert_eq!(s, "hello"),
        _ => panic!("expected the paste event to pass through"),
    }
    let out = handle_event(&mut st, &km, Event::Resize(80, 24));
    match out {
        InputOutcome::Passthrough(Event::Resize(c, r)) => {
            assert_eq!(c, 80);
            assert_eq!(r, 24);
        },
        _ => panic!("expected the resize event to pass through"),
    }
}

#[test]
fn key_events_drive_the_resolver_through_dispatch() {
    let mut km = KeyMap::new();
    km.bind(Mod::Normal, &keyseq("x"), act(5), false);
    let mut st = State::new();
    let out = handle_event(&mut st, &km, Event::Key(key('x')));
    match out {
        InputOutcome::Keys(ko) => assert_eq!(ko.fired, vec![act(5)]),
        _ => panic!("expected a key resolution"),
    }
}

#[test]
fn modifier_set_operations() {
    let shift = KeyModifiers::from_bits(MOD_SHIFT);
    let both = shift.union(&KeyModifiers::from_bits(MOD_CONTROL));
    assert!(both.contains(MOD_SHIFT));
    assert!(both.contains(MOD_CONTROL));
    let only_shift = both.intersection(&shift);
    assert_eq!(only_shift, shift);
    let mut m = KeyModifiers::empty();
    m.insert(MOD_CONTROL);
    assert!(m.contains(MOD_CONTROL));
    assert!(!m.contains(MOD_SHIFT));
}

#[test]
fn modifier_label_joins_names() {
    let both = KeyModifiers::from_bits(MOD_SHIFT | MOD_CONTROL);
    assert_eq!(both.label(), "Shift+Control");
    assert_eq!(KeyModifiers::empty().label(), "");
    assert_eq!(KeyModifiers::from_bits(MOD_SHIFT).label(), "Shift");
}

#[test]
fn media_and_modifier_key_labels() {
    assert_eq!(MediaKeyCode::PlayPause.label(), "Play/Pause");
    assert_eq!(MediaKeyCode::TrackNext.label(), "Next Track");
    assert_eq!(ModifierKeyCode::IsoLevel3Shift.label(), "Iso Level 3 Shift");
    assert_eq!(ModifierKeyCode::LeftControl.label(), "Left Ctrl");
}

#[test]
fn telescope_extra_mode_exposes_its_name() {
    let telescope = TelescopeMod {};
    assert_eq!(telescope.name(), "telescope");
}

#[test]
fn extra_mode_bindings_are_inert_until_activated() {
    let esc = KeyEvent::new(KeyCode::Esc, KeyModifiers::empty(), KeyEventKind::Press);
    let mut km = KeyMap::new();
    km.bind_extra(&"telescope".to_string(), &vec![esc], act(8), false);
    let mut st = State::new();
    let o = handle_key(&mut st, &km, esc);
    assert!(o.fired.is_empty());
    assert!(o.unbound);
}

#[test]
fn key_event_kinds_distinguish_press_from_release() {
    let press = KeyEvent::new(KeyCode::Char('a'), KeyModifiers::empty(), KeyEventKind::Press);
    let release = KeyEvent::new(KeyCode::Char('a'), KeyModifiers::empty(), KeyEventKind::Release);
    assert!(press != release);
}

#[test]
fn focus_events_pass_through() {
    let km = KeyMap::new();
    let mut st = State::new();
    match handle_event(&mut st, &km, Event::FocusGained) {
        InputOutcome::Passthrough(Event::FocusGained) => {},
        _ => panic!("expected focus gained to pass through"),
    }
    match handle_event(&mut st, &km, Event::FocusLost) {
        InputOutcome::Passthrough(Event::FocusLost) => {},
        _ => panic!("expected focus lost to pass through"),
    }
}

#[test]
fn function_keys_resolve_like_other_codes() {
    let f2 = KeyEvent::new(KeyCode::F(2), KeyModifiers::empty(), KeyEventKind::Press);
    let mut km = KeyMap::new();
    km.bind(Mod::Command, &vec![f2], act(11), false);
    let mut st = State::new();
    st.transition(Mod::Command);
    let o = handle_key(&mut st, &km, f2);
    assert_eq!(o.fired, vec![act(11)]);
}

#[test]
fn build_applies_the_ordered_binding_list() {
    let binds = vec![
        KeyBind { modd: Mod::Normal, keys: keyseq("x"), action: act(1), privileged: false },
        KeyBind { modd: Mod::Normal, keys: keyseq("gg"), action: act(5), privileged: false },
        KeyBind { modd: Mod::Normal, keys: keyseq("x"), action: act(2), privileged: true },
        KeyBind { modd: Mod::Command, keys: keyseq("x"), action: act(3), privileged: false },
    ];
    let km = KeyMap::build(&binds);
    let mut st = State::new();
    let o = handle_key(&mut st, &km, key('x'));
    assert_eq!(o.fired, vec![act(2)]);
    st.transition(Mod::Command);
    let o = handle_key(&mut st, &km, key('x'));
    assert_eq!(o.fired, vec![act(3)]);
}

#[test]
fn registry_knows_registered_names_only() {
    let mut mem = Mem::new();
    assert!(!mem.contains(&"telescope".to_string()));
    mem.register("telescope".to_string());
    assert!(mem.contains(&"telescope".to_string()));
    assert!(!mem.contains(&"git".to_string()));
}

#[test]
fn unregister_removes_the_name() {
    let mut mem = Mem::new();
    mem.register("telescope".to_string());
    mem.register("git".to_string());
    mem.unregister(&"telescope".to_string());
    assert!(!mem.contains(&"telescope".to_string()));
    assert!(mem.contains(&"git".to_string()));
    mem.unregister(&"telescope".to_string());
    assert!(mem.contains(&"git".to_string()));
}

#[test]
fn mouse_events_pass_through() {
    let km = KeyMap::new();
    let mut st = State::new();
    let m = MouseEvent { column: 3, row: 4 };
    match handle_event(&mut st, &km, Event::Mouse(m)) {
        InputOutcome::Passthrough(Event::Mouse(got)) => assert_eq!(got, m),
        _ => panic!("expected the mouse event to pass through"),
    }
}
