use std::sync::{mpsc, Arc, RwLock};
use voxels::model::{padded_uniform_size, transform_buffer_size};
use voxels::physics::physics_sim::{time_scale_after, TimeScaleKey, MAX_TIME_SCALE};
use voxels::player::controller::Controller;
use voxels::player::spaceship_controller::{key_binding, ControlKey, MovementAxis, MovementBinding};
use voxels::threading::WorkerThread;

#[test]
fn uniform_slots_round_up_to_the_alignment() {
    assert_eq!(padded_uniform_size(64, 256), 256);
    assert_eq!(padded_uniform_size(256, 256), 256);
    assert_eq!(padded_uniform_size(257, 256), 512);
    assert_eq!(padded_uniform_size(64, 1), 64);
    assert_eq!(padded_uniform_size(0, 256), 0);
    assert_eq!(transform_buffer_size(64, 256), 64 * 256);
}

#[test]
fn time_scale_moves_by_four_and_is_held() {
    assert_eq!(time_scale_after(1, TimeScaleKey::Faster), 4);
    assert_eq!(time_scale_after(4, TimeScaleKey::Slower), 1);
    assert_eq!(time_scale_after(1, TimeScaleKey::Slower), 1);
    assert_eq!(time_scale_after(MAX_TIME_SCALE, TimeScaleKey::Faster), MAX_TIME_SCALE);
    assert_eq!(time_scale_after(0, TimeScaleKey::Other), 1);
    assert_eq!(time_scale_after(16, TimeScaleKey::Other), 16);
    assert_eq!(MAX_TIME_SCALE, 4u32.pow(11));
}

#[test]
fn keys_drive_axes() {
    assert_eq!(key_binding(ControlKey::KeyW), Some(MovementBinding { axis: MovementAxis::Forward, negative: false }));
    assert_eq!(key_binding(ControlKey::ArrowDown), Some(MovementBinding { axis: MovementAxis::Forward, negative: true }));
    assert_eq!(key_binding(ControlKey::KeyA), Some(MovementBinding { axis: MovementAxis::Right, negative: true }));
    assert_eq!(key_binding(ControlKey::ArrowRight), Some(MovementBinding { axis: MovementAxis::Right, negative: false }));
    assert_eq!(key_binding(ControlKey::Space), Some(MovementBinding { axis: MovementAxis::Up, negative: false }));
    assert_eq!(key_binding(ControlKey::ShiftLeft), Some(MovementBinding { axis: MovementAxis::Up, negative: true }));
    assert_eq!(key_binding(ControlKey::Other), None);
}

#[test]
fn controller_setters_and_resets() {
    let mut c = Controller::new(0i32);
    c.forward(3);
    c.up(-2);
    c.right(5);
    c.rotate_right(7);
    c.rotate_up(-1);
    assert_eq!((c.get_forward(), c.get_up(), c.get_left()), (3, -2, 5));
    assert_eq!(c.steering(), (7, -1));
    assert_eq!(c.get_rotate_right(), 7);
    assert_eq!(c.get_rotate_up(), -1);
    c.reset_rotation();
    assert_eq!(c.steering(), (0, 0));
    assert_eq!(c.get_forward(), 3);
    c.reset();
    assert_eq!((c.get_forward(), c.get_up(), c.get_left()), (0, 0, 0));
}

#[test]
fn controller_reset_movement_keeps_steering() {
    let mut c = Controller::new(0i64);
    c.forward(1);
    c.rotate_up(4);
    c.reset_movement();
    assert_eq!(c.get_forward(), 0);
    assert_eq!(c.steering(), (0, 4));
}

#[test]
fn worker_thread_holds_its_parts() {
    let state = Arc::new(RwLock::new(5u32));
    let (tx, rx) = mpsc::channel::<u8>();
    let worker = WorkerThread::new("config", state.clone(), 9i32, rx);
    tx.send(3).unwrap();
    assert_eq!(worker.config, "config");
    assert_eq!(worker.internal_state, 9);
    assert_eq!(*worker.state.read().unwrap(), 5);
    assert_eq!(worker.input_rx.recv().unwrap(), 3);
}
