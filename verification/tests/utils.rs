use kdelaunay::kinput::KeyStatus;
use kdelaunay::kmath::{khash, khash2i};
use kdelaunay::priority_queue::PriorityQueue;
use kdelaunay::rgbutm::RGBUTM;
use kdelaunay::sound_instance::{SoundInstance, SoundManager};
use kdelaunay::texture_buffer::TextureBuffer;

#[test]
fn test_khash_values() {
    assert_eq!(khash(0), 1739749167);
    assert_eq!(khash(1), 150776505);
    assert_eq!(khash(12345), 3826328255);
}

#[test]
fn test_khash_deterministic() {
    for s in [0u32, 17, 400000, u32::MAX] {
        assert_eq!(khash(s), khash(s));
    }
}

#[test]
fn test_khash2i_value() {
    assert_eq!(khash2i(3, -4, 7), 2766008159);
}

#[test]
fn test_priority_queue_order() {
    let mut q: PriorityQueue<u32> = PriorityQueue::new();
    q.push(5, 50);
    q.push(1, 10);
    q.push(9, 90);
    q.push(3, 30);
    q.push(7, 70);
    assert_eq!(q.pop(), Some((1, 10)));
    assert_eq!(q.pop(), Some((3, 30)));
    assert_eq!(q.pop(), Some((5, 50)));
    assert_eq!(q.pop(), Some((7, 70)));
    assert_eq!(q.pop(), Some((9, 90)));
    assert_eq!(q.pop(), None);
}

#[test]
fn test_priority_queue_duplicate_keys() {
    let mut q: PriorityQueue<u8> = PriorityQueue::new();
    q.push(2, 1);
    q.push(2, 2);
    q.push(1, 3);
    let first = q.pop().unwrap();
    assert_eq!(first, (1, 3));
    let second = q.pop().unwrap();
    let third = q.pop().unwrap();
    assert_eq!(second.0, 2);
    assert_eq!(third.0, 2);
    let mut vals = vec![second.1, third.1];
    vals.sort();
    assert_eq!(vals, vec![1, 2]);
    assert_eq!(q.pop(), None);
}

#[test]
fn test_priority_queue_interleaved() {
    let mut q: PriorityQueue<u64> = PriorityQueue::new();
    q.push(8, 80);
    q.push(4, 40);
    assert_eq!(q.pop(), Some((4, 40)));
    q.push(2, 20);
    q.push(6, 60);
    assert_eq!(q.pop(), Some((2, 20)));
    assert_eq!(q.pop(), Some((6, 60)));
    assert_eq!(q.pop(), Some((8, 80)));
    assert_eq!(q.pop(), None);
}

#[test]
fn test_sound_durations() {
    let inst = |id: u32| SoundInstance { birth: 0, age: 0, id, seed: 0 };
    assert_eq!(inst(0).duration(), u64::MAX);
    assert_eq!(inst(1).duration(), 2500);
    assert_eq!(inst(2).duration(), 15000);
    assert_eq!(inst(3).duration(), 10000);
    assert_eq!(inst(4).duration(), 2500);
    assert_eq!(inst(5).duration(), 5000);
    assert_eq!(inst(6).duration(), 100);
    assert_eq!(inst(7).duration(), 100);
    assert_eq!(inst(8).duration(), 100);
}

#[test]
fn test_play_sound() {
    let mut m = SoundManager::new();
    assert_eq!(m.seed, 134157);
    m.play_sound(kdelaunay::sound_instance::LASER);
    assert_eq!(m.sounds.len(), 1);
    assert_eq!(m.seed, 2254739243);
    assert_eq!(m.sounds[0].seed, 2254739243);
    assert_eq!(m.sounds[0].age, 0);
    assert_eq!(m.sounds[0].birth, 0);
    assert_eq!(m.sounds[0].id, 0);
    m.play_sound(kdelaunay::sound_instance::ENEMY_DIE);
    assert_eq!(m.sounds.len(), 2);
    assert_ne!(m.sounds[1].seed, m.sounds[0].seed);
}

#[test]
fn test_texture_buffer_new() {
    let t = TextureBuffer::new(3, 2);
    assert_eq!(t.w, 3);
    assert_eq!(t.h, 2);
    assert_eq!(t.buf.len(), 24);
    for i in 0..6 {
        assert_eq!(t.buf[4 * i], 0);
        assert_eq!(t.buf[4 * i + 1], 0);
        assert_eq!(t.buf[4 * i + 2], 0);
        assert_eq!(t.buf[4 * i + 3], 255);
    }
}

#[test]
fn test_texture_buffer_set() {
    let mut t = TextureBuffer::new(4, 4);
    t.set(2, 1, [10, 20, 30, 40]);
    let base = 4 * (1 * 4 + 2);
    assert_eq!(t.buf[base], 10);
    assert_eq!(t.buf[base + 1], 20);
    assert_eq!(t.buf[base + 2], 30);
    assert_eq!(t.buf[base + 3], 40);
    // The neighbors keep their fresh colour.
    assert_eq!(t.buf[base - 1], 255);
    assert_eq!(t.buf[base + 4], 0);
}

#[test]
fn test_rgbutm_new() {
    let r = RGBUTM::new(8, 5, 42);
    assert_eq!(r.w, 8);
    assert_eq!(r.h, 5);
    assert_eq!(r.seed, 42);
    assert_eq!(r.head_x, 0);
    assert_eq!(r.head_y, 0);
    assert_eq!(r.head_colour, [0, 255, 255]);
    assert_eq!(r.steps_per_frame, 100);
    assert_eq!(r.grid.len(), 40);
    for cell in r.grid.iter() {
        assert_eq!(*cell, [35, 84, 186]);
    }
}

#[test]
fn test_keystatus_values() {
    assert_eq!(KeyStatus::Pressed, KeyStatus::Pressed);
    assert_ne!(KeyStatus::Pressed, KeyStatus::Released);
    let held = [KeyStatus::Pressed, KeyStatus::JustPressed];
    assert!(held.contains(&KeyStatus::JustPressed));
    assert!(!held.contains(&KeyStatus::JustReleased));
}
