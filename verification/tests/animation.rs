use display::assets::texture::image_type::Animation;
use display::assets::texture::image_type::ImageType;
use display::assets::texture::TextureId;

const A: TextureId = TextureId::DoodleLeft;
const B: TextureId = TextureId::DoodleRight;
const C: TextureId = TextureId::Mob0;

fn abc() -> Animation {
    Animation::from_frames(vec![(A, 100), (B, 50), (C, 50)])
}

fn state(animation: &Animation) -> (usize, i128) {
    (animation.current_frame(), animation.remaining())
}

#[test]
fn animation_starts_on_its_first_frame() {
    let animation = abc();
    assert_eq!(animation.get_texture(), A);
    assert_eq!(state(&animation), (0, 100));
    assert_eq!(animation.total_cycle_time(), 200);
    assert_eq!(animation.into_frames(), vec![(A, 100), (B, 50), (C, 50)]);
}

#[test]
fn animation_stays_while_the_frame_is_not_overdue() {
    let mut animation = abc();
    animation.update(0);
    assert_eq!(state(&animation), (0, 100));
    animation.update(60);
    assert_eq!(state(&animation), (0, 40));
    animation.update(40);
    // 100 ms have passed: the frame's time is used up, and not exceeded.
    assert_eq!(animation.get_texture(), A);
    assert_eq!(state(&animation), (0, 0));
    animation.update(1);
    assert_eq!(animation.get_texture(), B);
    assert_eq!(state(&animation), (1, 49));
}

#[test]
fn animation_credits_the_overtime_to_the_next_frame() {
    let mut animation = abc();
    animation.update(130);
    // 30 ms overdue: on to B, of whose 50 ms 30 are gone.
    assert_eq!(animation.get_texture(), B);
    animation.update(20);
    assert_eq!(animation.get_texture(), B);
    animation.update(1);
    assert_eq!(animation.get_texture(), C);
}

#[test]
fn animation_update_260_from_a_fresh_start() {
    let mut animation = abc();
    animation.update(260);
    // Overtime 160 of a cycle of 200: A (100) and B (50) are skipped, 10 are
    // left, which is no more than C shows; then one step on, to A, of whose
    // 100 ms 10 are gone.
    assert_eq!(animation.get_texture(), A);
    assert_eq!(state(&animation), (0, 90));
    animation.update(90);
    assert_eq!(animation.get_texture(), A);
    animation.update(1);
    assert_eq!(animation.get_texture(), B);
}

#[test]
fn animation_overtime_260_is_cut_to_60() {
    let mut animation = abc();
    // 100 ms use up the first frame, 260 more are overtime.
    animation.update(360);
    // 260 mod 200 = 60, which is no more than A shows: nothing is skipped,
    // one step on, to B, whose 50 ms are over by 10 already.
    assert_eq!(animation.get_texture(), B);
    assert_eq!(state(&animation), (1, 50 - 60));
    // The frame is overdue, so the next update moves on even if no time has
    // passed. Overtime 10 is no more than B shows, so one step on, to C, of
    // whose 50 ms 10 are gone.
    animation.update(0);
    assert_eq!(animation.get_texture(), C);
    assert_eq!(state(&animation), (2, 40));
    animation.update(40);
    assert_eq!(animation.get_texture(), C);
    animation.update(1);
    assert_eq!(animation.get_texture(), A);
}

#[test]
fn animation_whole_cycles_are_dropped() {
    let mut once = abc();
    once.update(130);
    let mut often = abc();
    often.update(130 + 200 * 1_000_000);
    assert_eq!(once.get_texture(), often.get_texture());
    once.update(20);
    often.update(20);
    assert_eq!(once.get_texture(), B);
    assert_eq!(often.get_texture(), B);
    once.update(1);
    often.update(1);
    assert_eq!(once.get_texture(), C);
    assert_eq!(often.get_texture(), C);
}

#[test]
fn animation_survives_the_longest_update() {
    let mut animation = abc();
    animation.update(u64::MAX);
    let shown = animation.get_texture();
    assert!(shown == A || shown == B || shown == C);
    animation.update(u64::MAX);
    animation.update(u64::MAX);
    let shown = animation.get_texture();
    assert!(shown == A || shown == B || shown == C);
    // u64::MAX = 18446744073709551615; less the first 100 ms the overtime
    // is ...515, which leaves 115 of a cycle of 200: A is skipped, 15 are
    // left, no more than B shows, one step on, to C.
    let mut fresh = abc();
    fresh.update(u64::MAX);
    assert_eq!(fresh.get_texture(), C);
}

#[test]
fn animation_with_one_frame_stays_on_it() {
    let mut animation = Animation::from_frames(vec![(B, 10)]);
    assert_eq!(animation.get_texture(), B);
    for dt in [0, 1, 9, 10, 11, 1000, u64::MAX] {
        animation.update(dt);
        assert_eq!(animation.get_texture(), B);
    }
}

#[test]
fn animation_with_frames_of_no_length_moves_one_step_an_update() {
    let mut animation = Animation::from_frames(vec![(A, 0), (B, 0), (C, 0)]);
    animation.update(0);
    assert_eq!(animation.get_texture(), A);
    animation.update(5);
    assert_eq!(animation.get_texture(), B);
    animation.update(u64::MAX);
    assert_eq!(animation.get_texture(), C);
    animation.update(1);
    assert_eq!(animation.get_texture(), A);
}

#[test]
fn animation_skips_frames_of_no_length() {
    let mut animation = Animation::from_frames(vec![(A, 10), (B, 0), (C, 20)]);
    // Overtime 5: A is not skipped (5 is no more than 10); one step on, to
    // B, which shows 0 ms and is over by 5.
    animation.update(15);
    assert_eq!(animation.get_texture(), B);
    // 1 ms more: overtime 6 is more than B shows (0): B is skipped, 6 are
    // left, no more than C shows; one step on, to A, of whose 10 ms 6 are gone.
    animation.update(1);
    assert_eq!(animation.get_texture(), A);
    animation.update(4);
    assert_eq!(animation.get_texture(), A);
    animation.update(1);
    assert_eq!(animation.get_texture(), B);
}

#[test]
fn animation_with_huge_frames_does_not_overflow() {
    let mut animation = Animation::from_frames(vec![(A, u64::MAX), (B, u64::MAX), (C, u64::MAX)]);
    animation.update(u64::MAX);
    assert_eq!(animation.get_texture(), A);
    animation.update(1);
    assert_eq!(animation.get_texture(), B);
    animation.update(u64::MAX);
    assert_eq!(animation.get_texture(), C);
}

#[test]
fn static_image_never_changes() {
    let mut image = ImageType::new_static(TextureId::GreenPlatform);
    assert_eq!(image.get(), TextureId::GreenPlatform);
    image.update(1_000_000);
    assert_eq!(image.get(), TextureId::GreenPlatform);
    assert_eq!(image.upget(u64::MAX), TextureId::GreenPlatform);
}

#[test]
fn animated_image_follows_its_animation() {
    let mut image = ImageType::new_animated(abc());
    assert_eq!(image.get(), A);
    image.update(101);
    assert_eq!(image.get(), B);
    assert_eq!(image.upget(49), B);
    assert_eq!(image.upget(1), C);
    assert_eq!(image.get(), C);
}

#[test]
fn animation_cursor_stays_on_a_frame_and_moves_by_at_most_a_cycle() {
    let lengths: [u64; 5] = [7, 0, 13, 1, 29];
    let frames: Vec<(TextureId, u64)> = lengths.iter().map(|&ms| (A, ms)).collect();
    let mut animation = Animation::from_frames(frames.clone());
    assert_eq!(animation.total_cycle_time(), 50);
    let mut dt: u64 = 1;
    for round in 0..200u64 {
        let before = animation.current_frame();
        animation.update(dt);
        let after = animation.current_frame();
        assert!(after < frames.len());
        assert!(animation.remaining() <= frames[after].1 as i128);
        assert!(animation.remaining() >= -(29i128));
        // The cursor has moved by fewer positions than a cycle has frames,
        // and one more at most, which going round is all that can be seen.
        let moved = (after + frames.len() - before) % frames.len();
        assert!(moved < frames.len());
        dt = dt.wrapping_mul(6364136223846793005).wrapping_add(round) % 1000;
    }
}

#[test]
fn animation_clone_is_in_the_same_state() {
    let mut animation = abc();
    animation.update(130);
    let mut copy = animation.clone();
    assert_eq!(copy, animation);
    copy.update(21);
    assert_eq!(state(&copy), (2, 49));
    assert_eq!(state(&animation), (1, 20));
    assert_ne!(copy, animation);
}

/// The same cursor, kept in floating-point numbers.
struct FloatingCursor {
    frames: Vec<f64>,
    current: usize,
    total: f64,
    timeout: f64,
}

impl FloatingCursor {
    fn new(frames: Vec<f64>) -> Self {
        let total = frames.iter().sum();
        let timeout = frames[0];
        FloatingCursor { frames, current: 0, total, timeout }
    }

    fn update(&mut self, dt: f64) {
        self.timeout -= dt;
        if self.timeout < 0. {
            let mut overtime = -self.timeout;
            overtime %= self.total;
            loop {
                let this_frame_time = self.frames[self.current];
                if overtime > this_frame_time {
                    overtime -= this_frame_time;
                    self.current = (self.current + 1) % self.frames.len();
                } else {
                    break;
                }
            }
            self.current = (self.current + 1) % self.frames.len();
            self.timeout = self.frames[self.current] - overtime;
        }
    }
}

#[test]
fn animation_agrees_with_the_same_cursor_in_floating_point() {
    let mut seed: u64 = 0x2545F4914F6CDD1D;
    let mut next = |bound: u64| {
        seed ^= seed << 13;
        seed ^= seed >> 7;
        seed ^= seed << 17;
        seed % bound
    };
    for _ in 0..200 {
        let count = 1 + next(6) as usize;
        let mut lengths: Vec<u64> = (0..count).map(|_| next(40)).collect();
        if lengths.iter().sum::<u64>() == 0 {
            lengths[0] = 1;
        }
        let mut animation =
            Animation::from_frames(lengths.iter().map(|&ms| (A, ms)).collect());
        let mut floating = FloatingCursor::new(lengths.iter().map(|&ms| ms as f64).collect());
        for _ in 0..50 {
            let dt = if next(10) == 0 { next(1_000_000) } else { next(60) };
            animation.update(dt);
            floating.update(dt as f64);
            assert_eq!(animation.current_frame(), floating.current);
            assert_eq!(animation.remaining() as f64, floating.timeout);
        }
    }
}
