use display::render::RenderLog;

fn counters(log: &RenderLog) -> [i32; 6] {
    [
        log.elements(),
        log.textures(),
        log.meshes(),
        log.texts(),
        log.draw_calls(),
        log.textures_not_found(),
    ]
}

#[test]
fn new_log_counts_nothing() {
    assert_eq!(counters(&RenderLog::new()), [0, 0, 0, 0, 0, 0]);
}

#[test]
fn each_event_moves_its_counters() {
    let mut log = RenderLog::new();
    log.on_draw_call();
    assert_eq!(counters(&log), [0, 0, 0, 0, 1, 0]);
    log.on_texture();
    assert_eq!(counters(&log), [1, 1, 0, 0, 1, 0]);
    log.on_mesh();
    assert_eq!(counters(&log), [2, 1, 1, 0, 1, 0]);
    log.on_text();
    assert_eq!(counters(&log), [3, 1, 1, 1, 1, 0]);
    log.on_texture_not_found();
    assert_eq!(counters(&log), [3, 1, 1, 1, 1, 1]);
}

#[test]
fn logs_add_and_subtract_counter_by_counter() {
    let mut a = RenderLog::new();
    a.on_texture();
    a.on_texture();
    a.on_draw_call();
    let mut b = RenderLog::new();
    b.on_mesh();
    b.on_text();
    b.on_texture_not_found();
    let sum = a + b;
    assert_eq!(counters(&sum), [4, 2, 1, 1, 1, 1]);
    assert_eq!(sum - b, a);
    assert_eq!(sum - a, b);
    assert_eq!(counters(&(RenderLog::new() - b)), [-2, 0, -1, -1, 0, -1]);
}

#[test]
fn logs_add_and_subtract_in_place() {
    let mut a = RenderLog::new();
    a.on_texture();
    let mut b = RenderLog::new();
    b.on_mesh();
    b.on_draw_call();
    let mut total = RenderLog::new();
    total += a;
    total += b;
    assert_eq!(counters(&total), [2, 1, 1, 0, 1, 0]);
    total -= a;
    assert_eq!(total, b);
}
