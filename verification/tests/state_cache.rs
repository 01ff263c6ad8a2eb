//! Cross-frame state: positional identity, defaults, and the fatal read
//! conditions reported as values.

use ui_compose::space::Area;
use ui_compose::children::Children;
use ui_compose::context::{Context, GlobalData};
use ui_compose::state::{State, StateCache, StateId, StateValue};
use ui_compose::error::UiError;

fn area(width: u32, height: u32) -> Area {
    Area { width, height }
}

fn ctx_for_frame(frame: u64, prev: StateCache) -> Context {
    Context::new(area(64, 64), Children::new(), prev, GlobalData::new(StateId::new(frame, 0)))
}

#[test]
fn state_ids_are_positional() {
    let mut ctx = ctx_for_frame(1, StateCache::new());
    let s1: State<u64> = ctx.new_state();
    let s2: State<bool> = ctx.new_state();
    let s3: State<i64> = ctx.new_state();
    assert_eq!(s1.id, StateId::new(1, 0));
    assert_eq!(s2.id, StateId::new(1, 1));
    assert_eq!(s3.id, StateId::new(1, 2));
}

#[test]
fn positional_identity_across_frames() {
    // frame 1 allocates two slots and the driver writes them
    let mut ctx = ctx_for_frame(1, StateCache::new());
    let s1: State<u64> = ctx.new_state();
    let s2: State<u64> = ctx.new_state();
    let mut cache = StateCache::new();
    cache.write(s1.id, 10u64);
    cache.write(s2.id, 20u64);

    // frame 2 repeats the same calls in the same order
    let mut ctx2 = ctx_for_frame(2, cache);
    let t1: State<u64> = ctx2.new_state();
    let t2: State<u64> = ctx2.new_state();
    let r1: u64 = ctx2.read_state(State::new(StateId::new(1, t1.id.slot)));
    let r2: u64 = ctx2.read_state(State::new(StateId::new(1, t2.id.slot)));
    assert_eq!(r1, 10);
    assert_eq!(r2, 20);

    // the documented hazard: a shifted position observes the other slot
    let swapped: u64 = ctx2.read_state(State::new(StateId::new(1, 1)));
    assert_eq!(swapped, 20);
}

#[test]
fn default_on_first_use() {
    let mut cache = StateCache::new();
    cache.write(StateId::new(1, 5), 77u64);
    let ctx = ctx_for_frame(2, cache);
    let unwritten_u64: u64 = ctx.read_state(State::new(StateId::new(1, 0)));
    let unwritten_bool: bool = ctx.read_state(State::new(StateId::new(1, 1)));
    let unwritten_i64: i64 = ctx.read_state(State::new(StateId::new(1, 2)));
    assert_eq!(unwritten_u64, 0);
    assert_eq!(unwritten_bool, false);
    assert_eq!(unwritten_i64, 0);
    let written: u64 = ctx.read_state(State::new(StateId::new(1, 5)));
    assert_eq!(written, 77);
}

#[test]
fn frame_skew_detected() {
    let mut cache = StateCache::new();
    cache.write(StateId::new(1, 0), 5u64);

    // exactly one frame back succeeds
    let ctx2 = ctx_for_frame(2, cache);
    assert_eq!(ctx2.try_read_state::<u64>(State::new(StateId::new(1, 0))), Ok(5));

    // two or more frames stale is the wrong-frame condition
    let mut cache = StateCache::new();
    cache.write(StateId::new(1, 0), 5u64);
    let ctx4 = ctx_for_frame(4, cache);
    assert_eq!(
        ctx4.try_read_state::<u64>(State::new(StateId::new(1, 0))),
        Err(UiError::WrongFrameRead)
    );

    // a handle from the current frame is also rejected
    assert_eq!(
        ctx4.try_read_state::<u64>(State::new(StateId::new(4, 0))),
        Err(UiError::WrongFrameRead)
    );
}

#[test]
fn type_mismatch_detected() {
    let mut cache = StateCache::new();
    cache.write(StateId::new(1, 0), true);
    let ctx = ctx_for_frame(2, cache);
    assert_eq!(
        ctx.try_read_state::<u64>(State::new(StateId::new(1, 0))),
        Err(UiError::StateTypeMismatch)
    );
    // reading at the stored kind still works
    assert_eq!(ctx.try_read_state::<bool>(State::new(StateId::new(1, 0))), Ok(true));
}

#[test]
fn later_write_shadows_earlier() {
    let mut cache = StateCache::new();
    cache.write(StateId::new(1, 0), 1u64);
    cache.write(StateId::new(1, 0), 2u64);
    assert_eq!(cache.get(StateId::new(1, 0)), Some(StateValue::Unsigned(2)));
    assert_eq!(cache.get(StateId::new(1, 1)), None);
}

#[test]
fn sub_context_state_delegates() {
    let ctx = ctx_for_frame(1, StateCache::new());
    let mut sub = ctx.open_element(
        area(64, 64),
        ui_compose::element::Id(1),
        ui_compose::element::ElementKind::Null,
    );
    let s1: State<u64> = sub.new_state();
    let s2: State<u64> = sub.new_state();
    assert_eq!(s1.id, StateId::new(1, 0));
    assert_eq!(s2.id, StateId::new(1, 1));
}

#[test]
fn sub_context_reads_previous_frame() {
    let mut cache = StateCache::new();
    cache.write(StateId::new(3, 9), 123u64);
    let ctx = ctx_for_frame(4, cache);
    let sub = ctx.open_element(
        area(64, 64),
        ui_compose::element::Id(1),
        ui_compose::element::ElementKind::Null,
    );
    let r: u64 = sub.read_state(State::new(StateId::new(3, 9)));
    assert_eq!(r, 123);
}

#[test]
fn state_handle_clones_same_slot() {
    let s: State<u64> = State::new(StateId::new(2, 7));
    let c = s.clone();
    assert_eq!(c.id, StateId::new(2, 7));
}
