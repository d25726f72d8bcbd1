use std::collections::HashSet;

use repame::bodies::{casts_ray, damping, extra_mass, half_extent, BodyKind, BodyRegistry};
use repame::physics::{
    first_solid, push_axis, pushes_back, resolve_axis, rotated_box_aabb, Axis, Cell, MoveResult, PhysicsState,
    Rest, Span, Velocity, VoxelQuery, Wall,
};
use repame::scalar::Scalar;

const SKIN: f32 = 0.001;

fn s(v: f32) -> Scalar {
    Scalar::from_bits(v.to_bits())
}

fn cell(x: i32, y: i32, z: i32) -> Cell {
    Cell { x, y, z }
}

struct Floor {
    solids: HashSet<Cell>,
}

impl VoxelQuery for Floor {
    fn solid(&self, cell: Cell) -> bool {
        self.solids.contains(&cell)
    }

    fn is_solid(&self, cell: Cell) -> bool {
        self.solid(cell)
    }

    fn drift(&self, cell: Cell) -> Velocity {
        Velocity { x: s(cell.x as f32), y: s(0.0), z: s(0.0) }
    }

    fn ground_velocity(&self, cell: Cell) -> Velocity {
        self.drift(cell)
    }
}

fn floor() -> Floor {
    let mut solids = HashSet::new();
    for x in -4..=4 {
        for z in -4..=4 {
            solids.insert(cell(x, 0, z));
        }
    }
    Floor { solids }
}

struct Body {
    pos: [f32; 3],
    half: [f32; 3],
}

impl Body {
    fn span(&self) -> Span {
        let lo = |i: usize| (self.pos[i] + SKIN).floor() as i32;
        let hi = |i: usize| (self.pos[i] + self.half[i] * 2.0 - SKIN).floor() as i32;
        Span { x0: lo(0), x1: hi(0), y0: lo(1), y1: hi(1), z0: lo(2), z1: hi(2) }
    }
}

fn along(c: Cell, axis: usize) -> i32 {
    [c.x, c.y, c.z][axis]
}

fn move_and_collide(q: &Floor, b: &mut Body, delta: [f32; 3], state: &mut PhysicsState) -> MoveResult {
    let mut result = MoveResult::default();
    let travel: f32 = delta.iter().map(|d| d.abs()).sum();
    let least = b.half[0].min(b.half[1]).min(b.half[2]).max(0.05);
    let step_len = (least * 0.85).clamp(0.05, 0.3);
    let steps = ((travel / step_len).ceil() as usize).clamp(1, 100);
    state.begin_move();
    for _ in 0..steps {
        for (i, axis) in [Axis::X, Axis::Y, Axis::Z].into_iter().enumerate() {
            let amount = delta[i] / steps as f32;
            b.pos[i] += amount;
            match resolve_axis(q, b.span(), axis, s(amount), &mut result, state) {
                Some(Rest::Before(c)) => {
                    b.pos[i] = along(c, i) as f32 - b.half[i] * 2.0 - SKIN;
                }
                Some(Rest::Behind(c)) | Some(Rest::OnTop(c)) => {
                    b.pos[i] = (along(c, i) + 1) as f32 + SKIN;
                }
                None => {}
            }
        }
    }
    result
}

#[test]
fn falls_and_grounds() {
    let q = floor();
    let mut body = Body { pos: [0.0, 3.0, 0.0], half: [0.3, 0.9, 0.3] };
    let mut state = PhysicsState::default();
    for _ in 0..120 {
        move_and_collide(&q, &mut body, [0.0, -10.0 * (1.0 / 60.0), 0.0], &mut state);
        if state.on_ground {
            break;
        }
    }
    assert!(state.on_ground);
    assert!((body.pos[1] - 1.0).abs() < 0.05, "y={}", body.pos[1]);
}

#[test]
fn wall_blocks() {
    let mut q = floor();
    q.solids.insert(cell(1, 1, 0));
    let mut body = Body { pos: [0.0, 1.0, 0.0], half: [0.3, 0.9, 0.3] };
    let mut state = PhysicsState::default();
    move_and_collide(&q, &mut body, [5.0, 0.0, 0.0], &mut state);
    assert!(body.pos[0] + 0.6 < 1.0 + 0.01, "x={}", body.pos[0]);
}

#[test]
fn pushback_separates() {
    let mut a: [f32; 3] = [0.0, 0.0, 0.0];
    let mut b: [f32; 3] = [0.5, 0.0, 0.0];
    let overlap = |i: usize| ((a[i] + 1.0).min(b[i] + 1.0) - a[i].max(b[i])).max(0.0);
    let o = [overlap(0), overlap(1), overlap(2)];
    assert_eq!(push_axis(s(o[0]), s(o[1]), s(o[2])), Some(Axis::X));
    let push = o[0] / 2.0 + SKIN;
    a[0] -= push;
    b[0] += push;
    assert!(a[0] + 1.0 <= b[0] + 0.01 || b[0] + 1.0 <= a[0] + 0.01);
}

#[test]
fn pushes_take_the_least_overlap() {
    assert!(pushes_back(s(-1.0), s(0.5)));
    assert!(!pushes_back(s(0.5), s(-1.0)));
    assert!(!pushes_back(s(0.5), s(0.5)));
    assert_eq!(push_axis(s(0.0), s(1.0), s(1.0)), None);
    assert_eq!(push_axis(s(1.0), s(1.0), s(1.0)), Some(Axis::X));
    assert_eq!(push_axis(s(2.0), s(1.0), s(1.5)), Some(Axis::Y));
    assert_eq!(push_axis(s(2.0), s(1.0), s(0.5)), Some(Axis::Z));
}

#[test]
fn rotated_aabb_swaps_xz_on_quarter_turns() {
    assert_eq!(rotated_box_aabb([1.0, 2.0, 3.0], 0), [1.0, 2.0, 3.0]);
    assert_eq!(rotated_box_aabb([1.0, 2.0, 3.0], 1), [3.0, 2.0, 1.0]);
    assert_eq!(rotated_box_aabb([1.0, 2.0, 3.0], 3), [3.0, 2.0, 1.0]);
    assert_eq!(rotated_box_aabb([1, 2, 3], 4), [1, 2, 3]);
}

#[test]
fn scans_follow_the_move() {
    let q = Floor { solids: [cell(0, 0, 0), cell(2, 0, 0), cell(0, 3, 0)].into_iter().collect() };
    let s = Span { x0: 0, x1: 2, y0: 0, y1: 3, z0: 0, z1: 0 };
    assert_eq!(first_solid(&q, s, Axis::X, false), Some(cell(0, 0, 0)));
    assert_eq!(first_solid(&q, s, Axis::X, true), Some(cell(2, 0, 0)));
    assert_eq!(first_solid(&q, s, Axis::Y, true), Some(cell(0, 3, 0)));
    assert_eq!(first_solid(&q, s, Axis::Y, false), Some(cell(0, 0, 0)));
    let empty = Span { x1: -1, ..s };
    assert_eq!(first_solid(&q, empty, Axis::X, false), None);
}

#[test]
fn contacts_record_what_was_touched() {
    let q = Floor { solids: [cell(3, 0, 0)].into_iter().collect() };
    let span = Span { x0: 3, x1: 3, y0: 0, y1: 0, z0: 0, z1: 0 };
    let mut r = MoveResult::default();
    let mut st = PhysicsState::default();
    let rest = resolve_axis(&q, span, Axis::X, s(-0.5), &mut r, &mut st);
    assert_eq!(rest, Some(Rest::Behind(cell(3, 0, 0))));
    assert_eq!(st.on_wall, Some(Wall { axis: Axis::X, against: s(-0.5) }));
    assert!(r.hit_x && !r.grounded);
    let rest = resolve_axis(&q, span, Axis::Y, s(-0.5), &mut r, &mut st);
    assert_eq!(rest, Some(Rest::OnTop(cell(3, 0, 0))));
    assert!(r.grounded && st.on_ground);
    assert_eq!(st.ground_vel.x, s(3.0));
    let rest = resolve_axis(&q, span, Axis::Y, s(0.5), &mut r, &mut st);
    assert_eq!(rest, Some(Rest::Before(cell(3, 0, 0))));
    assert!(st.on_ceiling);
    assert_eq!(resolve_axis(&q, span, Axis::Z, s(0.0), &mut r, &mut st), None);
    assert!(!r.hit_z);
    st.begin_move();
    assert_eq!(st, PhysicsState::default());
}

fn spawn(reg: &mut BodyRegistry<u32, u32>, asked: &Vec<u64>) {
    for e in reg.bodies_to_spawn(asked) {
        reg.add_body(e, e as u32 + 100);
    }
}

#[test]
fn warrior_puppet_spawns_eight_bodies_seven_joints() {
    let mut reg: BodyRegistry<u32, u32> = BodyRegistry::new();
    let limbs: Vec<u64> = (0..8).collect();
    for _ in 0..2 {
        spawn(&mut reg, &limbs);
        for child in 1..8u64 {
            let joint = 10 + child;
            if let Some((a, b)) = reg.joint_to_spawn(joint, 0, child) {
                assert_eq!((a, b), (100, 100 + child as u32));
                reg.track_joint(joint, child as u32);
            }
        }
    }
    assert_eq!(reg.body_count(), 8);
    assert_eq!(reg.joint_count(), 7);
}

#[test]
fn puppet_pair_spawns_two_bodies_one_spherical_joint() {
    let mut reg: BodyRegistry<u32, u32> = BodyRegistry::new();
    assert_eq!(reg.joint_to_spawn(9, 1, 2), None);
    spawn(&mut reg, &vec![1, 2, 1]);
    assert!(reg.joint_to_spawn(9, 1, 2).is_some());
    reg.track_joint(9, 7);
    assert_eq!(reg.joint_to_spawn(9, 1, 2), None);
    assert_eq!(reg.body_count(), 2);
    assert_eq!(reg.joint_count(), 1);
}

#[test]
fn removed_bodies_can_be_asked_for_again() {
    let mut reg: BodyRegistry<u32, u32> = BodyRegistry::new();
    spawn(&mut reg, &vec![1]);
    reg.track_joint(4, 40);
    assert_eq!(reg.bodies_to_spawn(&vec![1, 2]), vec![2]);
    assert_eq!(reg.body_handle(1), Some(101));
    assert_eq!(reg.remove_body(1), Some(101));
    assert_eq!(reg.remove_body(1), None);
    assert_eq!(reg.bodies_to_spawn(&vec![1, 2]), vec![1, 2]);
    assert_eq!(reg.remove_joint(4), Some(40));
    assert_eq!(reg.remove_joint(4), None);
    assert_eq!(BodyKind::default(), BodyKind::Dynamic);
}

#[test]
fn group_bits_pass_through_rapier() {
    assert_eq!(repame::rapier2d::group_bits(0, true), u32::MAX);
    assert_eq!(repame::rapier2d::group_bits(0, false), 0);
    assert_eq!(repame::rapier2d::group_bits(0x0002, true), 0x0002);
    assert_eq!(repame::rapier3d::group_bits(0, true), u32::MAX);
    assert_eq!(repame::rapier3d::group_bits(0x8001, false), 0x8001);
    let two = rapier2d::geometry::Group::from_bits(0x0002).unwrap();
    assert_eq!(two.bits(), repame::rapier2d::group_bits(two.bits(), false));
}

#[test]
fn despawning_hands_back_each_handle_once() {
    let mut reg: BodyRegistry<u32, u32> = BodyRegistry::new();
    spawn(&mut reg, &vec![1, 2, 3]);
    reg.track_joint(8, 80);
    assert_eq!(reg.despawn_bodies(&vec![3, 9, 1, 3]), vec![103, 101]);
    assert_eq!(reg.body_count(), 1);
    assert_eq!(reg.body_handle(2), Some(102));
    assert_eq!(reg.despawn_joints(&vec![8, 8]), vec![80]);
    assert_eq!(reg.joint_count(), 0);
    assert_eq!(reg.bodies_to_spawn(&vec![1, 2, 3]), vec![1, 3]);
}

#[test]
fn bodies_keep_usable_numbers() {
    assert_eq!(half_extent(s(0.0)), s(1e-4));
    assert_eq!(half_extent(s(2.0)), s(2.0));
    assert_eq!(damping(s(-1.0)), s(0.0));
    assert_eq!(extra_mass(BodyKind::Dynamic, s(3.0)), Some(s(3.0)));
    assert_eq!(extra_mass(BodyKind::Dynamic, s(1e-6)), Some(s(1e-4)));
    assert_eq!(extra_mass(BodyKind::Dynamic, s(0.0)), None);
    assert_eq!(extra_mass(BodyKind::Fixed, s(3.0)), None);
    assert!(casts_ray(s(500.0), s(1.0)));
    assert!(!casts_ray(s(0.0), s(1.0)));
    assert!(!casts_ray(s(500.0), s(0.0)));
}
