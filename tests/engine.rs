use untitled_bandit::presets::{create_conveyor, get_exit, get_key, get_locked_door};
use untitled_bandit::attacks::{AtkPat, Effect, LineFx, MeleeAtk, OtherEffect, PatternError, RangedAtk};
use untitled_bandit::damage::{Chance, DmgInst, DmgType};
use untitled_bandit::datum::Datum;
use untitled_bandit::engine::{effect_cmds, resolve, Outcome};
use untitled_bandit::entity::{ActionType, Cond, En, Script, Special};
use untitled_bandit::path::{find_first_step, PathStep};
use untitled_bandit::point::{get_all_adjacent, plot_line, Point};
use untitled_bandit::scheduler::{highest_priority, play_turn};
use untitled_bandit::turn::{reveal_room, take_turn};
use untitled_bandit::vfx::{Glyph, Vfx};
use untitled_bandit::world::{Cmd, GameContext, Rect, StepEffect, Tile, World};

fn pt(x: i32, y: i32) -> Point {
    Point::new(x, y)
}

fn ctx_at(player: Point) -> GameContext {
    GameContext {
        player,
        dead: false,
        enemies_remaining: 0,
        global_time: 0,
        keys: vec![0, 0, 0, 0],
        dmg_dealt: 0,
        exit_reached: false,
        no_clip: false,
        door_glyph: Glyph::plain('/'),
    }
}

fn four_way(dmg: u32) -> AtkPat {
    let atks = MeleeAtk::bulk_new::<4>(
        vec![Effect::DoDmg(DmgInst::dmg(dmg, Chance::certain()))],
        crossterm::style::Color::Red,
        3,
        Vfx::new(Vec::new()),
        &vec!['-', '|', '-', '|'],
    )
    .unwrap();
    AtkPat::from_atks(atks).unwrap()
}

fn enemy(hp: u32, actions: Vec<ActionType>) -> En {
    let mut e = En::new(
        hp,
        false,
        1,
        Glyph::plain('e'),
        Special::Not,
        get_all_adjacent(),
        four_way(1),
        false,
    );
    e.actions = actions;
    e
}

fn player() -> En {
    En::new(10, true, 1, Glyph::plain('@'), Special::Not, get_all_adjacent(), four_way(1), false)
}

fn wall() -> Tile {
    let mut t = Tile::new_empty();
    t.blocking = true;
    t.empt = false;
    t
}

#[test]
fn datum_reads_max_until_set() {
    let mut d = Datum::new(5);
    assert_eq!(d.value(), 5);
    d.set_to(3);
    assert_eq!(d.value(), 3);
    d.set_to(9);
    assert_eq!(d.value(), 5);
    d.set_to(2);
    d.reset();
    assert_eq!(d.value(), 5);
}

#[test]
fn datum_overflow_resets_to_max() {
    let mut d = Datum::new(10);
    d.set_to(4);
    d.add_assign(3);
    assert_eq!(d.value(), 7);
    d.add_assign(4);
    assert_eq!(d.value(), 10);
    d.set_to(6);
    d.sub_assign(6);
    assert_eq!(d.value(), 0);
    d.add_assign(u32::MAX);
    assert_eq!(d.value(), 10);
}

#[test]
fn datum_change_max() {
    let mut d = Datum::new(10);
    d.set_to(8);
    d.change_max(5);
    assert_eq!(d.value(), 5);
    let mut d = Datum::new(10);
    d.set_to(3);
    d.change_max(20);
    assert_eq!(d.value(), 3);
    assert_eq!(d.max, 20);
}

#[test]
fn dmg_type_from_signed() {
    assert_eq!(DmgType::new(-5), DmgType::Heal(5));
    assert_eq!(DmgType::new(0), DmgType::Dmg(0));
    assert_eq!(DmgType::new(7), DmgType::Dmg(7));
    assert_eq!(DmgType::new(i32::MIN), DmgType::Heal(2147483648));
    let inst = DmgInst { dmg: DmgType::new(-12), acc: Chance::certain() };
    assert_eq!(inst.total_dmg(), -12);
    assert_eq!(DmgInst::dmg(4, Chance::certain()).total_dmg(), 4);
}

#[test]
fn chance_validation() {
    assert!(Chance::new(1, 0).is_none());
    assert!(Chance::new(3, 2).is_none());
    assert_eq!(Chance::new(2, 3), Some(Chance { num: 2, den: 3 }));
}

#[test]
fn overkill_then_heal() {
    let mut e = enemy(3, Vec::new());
    assert!(e.apply_dmg(DmgInst::dmg(5, Chance::certain())));
    assert_eq!(e.hp.value(), 0);
    assert!(e.is_dead());
    assert!(!e.apply_dmg(DmgInst::heal(2)));
    assert_eq!(e.hp.value(), 2);
}

#[test]
fn exact_lethal_blow_reports_death() {
    let mut e = enemy(3, Vec::new());
    assert!(e.apply_dmg(DmgInst::dmg(3, Chance::certain())));
    assert_eq!(e.hp.value(), 0);
    assert!(e.is_dead());
}

#[test]
fn heal_past_max_resets_to_max() {
    let mut e = enemy(5, Vec::new());
    e.apply_dmg(DmgInst::dmg(3, Chance::certain()));
    assert_eq!(e.hp.value(), 2);
    assert!(!e.apply_dmg(DmgInst::heal(2)));
    assert_eq!(e.hp.value(), 4);
    assert!(!e.apply_dmg(DmgInst::heal(100)));
    assert_eq!(e.hp.value(), 5);
}

#[test]
fn melee_hit_from_orthogonal_pattern() {
    let pat = four_way(1);
    assert_eq!(pat.melee_hit_from(pt(0, 0), pt(1, 0)), Some((pt(1, 0), 0)));
    assert_eq!(pat.melee_hit_from(pt(0, 0), pt(0, -1)), Some((pt(0, -1), 0)));
    assert_eq!(pat.melee_hit_from(pt(0, 0), pt(1, 1)), None);
    assert_eq!(pat.melee_hit_from(pt(0, 0), pt(2, 0)), None);
}

#[test]
fn attack_positions_invert_attacked_from() {
    let pat = four_way(1);
    let target = pt(5, 5);
    let all = pat.find_attack_positions(target);
    assert_eq!(all, vec![pt(5, 4), pt(6, 5), pt(5, 6), pt(4, 5)]);
    for d in get_all_adjacent() {
        for x in 3..8 {
            for y in 3..8 {
                let p = pt(x, y);
                let hit = pat.attacked_from(p, d).contains(&target);
                assert_eq!(hit, p == pt(target.x - d.x, target.y - d.y));
                assert_eq!(hit, all.contains(&p) && pat.attacked_from(p, d).len() == 1 && p.x + d.x == 5 && p.y + d.y == 5);
            }
        }
    }
    assert!(pat.attacked_from(pt(0, 0), pt(1, 1)).is_empty());
}

#[test]
fn melee_hits_places() {
    let atk = MeleeAtk::new(Vec::new(), vec![pt(1, 0), pt(2, 0)], Vec::new(), Vfx::new(Vec::new()));
    assert!(atk.hits(pt(3, 3), pt(5, 3)));
    assert!(!atk.hits(pt(3, 3), pt(3, 5)));
}

#[test]
fn bulk_new_rejects_other_counts() {
    let r = MeleeAtk::bulk_new::<5>(Vec::new(), crossterm::style::Color::Red, 1, Vfx::new(Vec::new()), &vec!['a'; 5]);
    assert_eq!(r.err(), Some(PatternError::NeighbourCount(5)));
    let eight = MeleeAtk::bulk_new::<8>(Vec::new(), crossterm::style::Color::Red, 1, Vfx::new(Vec::new()), &vec!['a'; 8]).unwrap();
    assert_eq!(eight.len(), 8);
    assert_eq!(eight[0].place, vec![pt(0, 1)]);
    assert_eq!(eight[4].place, vec![pt(-1, -1)]);
    let few = MeleeAtk::bulk_new::<4>(Vec::new(), crossterm::style::Color::Red, 1, Vfx::new(Vec::new()), &vec!['a'; 2]).unwrap();
    assert_eq!(few.len(), 2);
    let three = few.into_iter().chain(eight.into_iter().take(1)).collect::<Vec<_>>();
    assert_eq!(AtkPat::from_atks(three).err(), Some(PatternError::NeighbourCount(3)));
}

#[test]
fn line_plotting() {
    assert_eq!(plot_line(pt(0, 0), pt(3, 1)), vec![pt(0, 0), pt(1, 0), pt(2, 1), pt(3, 1)]);
    assert_eq!(plot_line(pt(2, 2), pt(2, 2)), vec![pt(2, 2)]);
    assert_eq!(plot_line(pt(0, 0), pt(-2, -2)), vec![pt(0, 0), pt(-1, -1), pt(-2, -2)]);
    assert_eq!(plot_line(pt(0, 0), pt(0, 3)), vec![pt(0, 0), pt(0, 1), pt(0, 2), pt(0, 3)]);
}

#[test]
fn commands_apply_in_order() {
    let mut w = World::new(5, 5);
    let mut ctx = ctx_at(pt(0, 0));
    w.insert_ent(pt(1, 1), enemy(5, Vec::new()));
    let q = vec![
        Cmd::MoveTo { from: pt(1, 1), to: pt(2, 1) },
        Cmd::Damage { at: pt(2, 1), inst: DmgInst::dmg(7, Chance::certain()) },
        Cmd::SetActed { at: pt(2, 1), acted: true },
        Cmd::Reveal { at: pt(4, 4) },
    ];
    w.apply_queue(&mut ctx, q);
    assert!(w.get_ent(pt(1, 1)).is_none());
    let e = w.get_ent(pt(2, 1)).unwrap();
    assert_eq!(e.hp.value(), 0);
    assert!(e.acted);
    assert_eq!(ctx.dmg_dealt, 5);
    assert!(w.get_tile(pt(4, 4)).unwrap().revealed);
}

#[test]
fn unlock_uses_a_key() {
    let mut w = World::new(3, 3);
    let mut ctx = ctx_at(pt(0, 0));
    let mut door = wall();
    door.locked = Some(1);
    w.set_tile(pt(1, 1), door);
    w.apply_cmd(&mut ctx, Cmd::Unlock { at: pt(1, 1) });
    assert!(w.get_tile(pt(1, 1)).unwrap().blocking);
    w.apply_cmd(&mut ctx, Cmd::CollectKey { at: pt(0, 0), key: 1 });
    assert_eq!(ctx.keys[1], 1);
    w.apply_cmd(&mut ctx, Cmd::Unlock { at: pt(1, 1) });
    let t = w.get_tile(pt(1, 1)).unwrap();
    assert!(!t.blocking);
    assert_eq!(t.locked, None);
    assert_eq!(ctx.keys[1], 0);
}

fn run(w: &World, ctx: &GameContext, en: &En, action: &ActionType, pos: Point) -> (Outcome, Vec<Cmd>) {
    let mut q = Vec::new();
    let out = resolve(w, ctx, en, pos, action, pos, 16, &mut q);
    (out, q)
}

#[test]
fn chain_falls_back_when_first_fails() {
    let mut w = World::new(5, 5);
    w.set_tile(pt(3, 2), wall());
    let ctx = ctx_at(pt(0, 4));
    let e = enemy(3, Vec::new());
    w.insert_ent(pt(2, 2), enemy(3, Vec::new()));
    let blocked = ActionType::TryMove(pt(1, 0));
    let (o, _) = run(&w, &ctx, &e, &blocked, pt(2, 2));
    assert!(!o.acted);
    let chain = ActionType::Chain(Box::new(ActionType::TryMove(pt(1, 0))), Box::new(ActionType::TryMove(pt(0, 1))));
    let (o, _) = run(&w, &ctx, &e, &chain, pt(2, 2));
    assert_eq!(o, Outcome { pos: pt(2, 3), acted: true, cursor: None });
    let chain = ActionType::Chain(Box::new(ActionType::TryMove(pt(0, 1))), Box::new(ActionType::TryMove(pt(-1, 0))));
    let (o, _) = run(&w, &ctx, &e, &chain, pt(2, 2));
    assert_eq!(o.pos, pt(2, 3));
    let chain = ActionType::Chain(Box::new(ActionType::TryMove(pt(1, 0))), Box::new(ActionType::TryMove(pt(1, 0))));
    let (o, _) = run(&w, &ctx, &e, &chain, pt(2, 2));
    assert_eq!(o, Outcome { pos: pt(2, 2), acted: true, cursor: None });
}

#[test]
fn multi_reports_second_action() {
    let mut w = World::new(5, 5);
    w.set_tile(pt(3, 3), wall());
    let ctx = ctx_at(pt(0, 4));
    let e = enemy(3, Vec::new());
    let multi = ActionType::Multi(Box::new(ActionType::TryMove(pt(0, 1))), Box::new(ActionType::TryMove(pt(1, 0))));
    let (o, _) = run(&w, &ctx, &e, &multi, pt(2, 2));
    assert_eq!(o, Outcome { pos: pt(2, 3), acted: false, cursor: None });
    let multi = ActionType::Multi(Box::new(ActionType::TryMove(pt(1, 0))), Box::new(ActionType::Wait));
    let (o, _) = run(&w, &ctx, &e, &multi, pt(2, 2));
    assert_eq!(o, Outcome { pos: pt(3, 2), acted: true, cursor: None });
}

#[test]
fn jump_and_branch_set_cursor() {
    let w = World::new(5, 5);
    let ctx = ctx_at(pt(4, 4));
    let e = enemy(3, vec![ActionType::Wait, ActionType::TryMove(pt(1, 0)), ActionType::Jump(1)]);
    let (o, _) = run(&w, &ctx, &e, &ActionType::Jump(1), pt(1, 1));
    assert_eq!(o, Outcome { pos: pt(2, 1), acted: true, cursor: Some(2) });
    let (o, _) = run(&w, &ctx, &e, &ActionType::Jump(9), pt(1, 1));
    assert_eq!(o, Outcome { pos: pt(1, 1), acted: false, cursor: None });
    let br = ActionType::CondBranch(0, 1, Cond::PlayerWithin(2));
    let (o, _) = run(&w, &ctx, &e, &br, pt(1, 1));
    assert_eq!(o.cursor, Some(2));
    assert_eq!(o.pos, pt(2, 1));
    let (o, _) = run(&w, &ctx, &e, &br, pt(3, 3));
    assert_eq!(o, Outcome { pos: pt(3, 3), acted: true, cursor: Some(1) });
    let looping = enemy(3, vec![ActionType::Jump(0)]);
    let (o, _) = run(&w, &ctx, &looping, &ActionType::Jump(0), pt(1, 1));
    assert!(!o.acted);
}

#[test]
fn scripts_take_the_turn() {
    let w = World::new(5, 5);
    let ctx = ctx_at(pt(4, 4));
    let e = enemy(3, Vec::new());
    let (o, _) = run(&w, &ctx, &e, &ActionType::Arbitrary(Script::Blink(pt(2, 0))), pt(1, 1));
    assert_eq!(o, Outcome { pos: pt(3, 1), acted: true, cursor: None });
    let (o, q) = run(&w, &ctx, &e, &ActionType::Arbitrary(Script::HealSelf(2)), pt(1, 1));
    assert!(o.acted);
    assert!(matches!(q[0], Cmd::Damage { at, .. } if at == pt(1, 1)));
}

#[test]
fn try_melee_hits_the_player() {
    let mut w = World::new(5, 5);
    let mut ctx = ctx_at(pt(2, 3));
    w.insert_ent(pt(2, 2), enemy(3, vec![ActionType::TryMelee]));
    w.insert_ent(pt(2, 3), player());
    let e = enemy(3, Vec::new());
    let (o, q) = run(&w, &ctx, &e, &ActionType::TryMelee, pt(2, 2));
    assert!(o.acted);
    assert!(q.iter().any(|c| matches!(c, Cmd::Damage { at, .. } if *at == pt(2, 3))));
    let (o, _) = run(&w, &ctx, &e, &ActionType::TryMelee, pt(0, 0));
    assert!(!o.acted);
    play_turn(&mut w, &mut ctx, pt(2, 2), &ActionType::Wait);
    assert_eq!(w.get_ent(pt(2, 3)).unwrap().hp.value(), 9);
    assert_eq!(w.get_ent(pt(2, 2)).unwrap().cursor, 0);
    assert!(w.get_ent(pt(2, 2)).unwrap().acted);
}

#[test]
fn player_bump_attacks_instead_of_moving() {
    let mut w = World::new(5, 5);
    let mut ctx = ctx_at(pt(1, 1));
    w.insert_ent(pt(1, 1), player());
    w.insert_ent(pt(2, 1), enemy(3, Vec::new()));
    let (_, out) = take_turn(&w, &mut ctx, pt(1, 1), &ActionType::TryMove(pt(1, 0)));
    assert_eq!(out, Some(Outcome { pos: pt(1, 1), acted: true, cursor: None }));
    assert_eq!(ctx.global_time, 1);
    play_turn(&mut w, &mut ctx, pt(1, 1), &ActionType::TryMove(pt(0, 1)));
    assert!(w.get_ent(pt(1, 2)).is_some());
    assert_eq!(ctx.player, pt(1, 2));
}

#[test]
fn missed_blow_shows_miss_effect() {
    let w = World::new(5, 5);
    let ctx = ctx_at(pt(2, 3));
    let atks = MeleeAtk::bulk_new::<4>(
        vec![Effect::DoDmg(DmgInst::dmg(1, Chance { num: 0, den: 1 }))],
        crossterm::style::Color::Red,
        1,
        Vfx::new_opaque(Glyph::plain('?'), 2),
        &vec!['-', '|', '-', '|'],
    )
    .unwrap();
    let mut e = enemy(3, Vec::new());
    e.atks = AtkPat::from_atks(atks).unwrap();
    let (o, q) = run(&w, &ctx, &e, &ActionType::ForceMelee(pt(0, 1), 0), pt(2, 2));
    assert!(o.acted);
    assert!(!q.iter().any(|c| matches!(c, Cmd::Damage { .. })));
    assert!(q.iter().any(|c| matches!(c, Cmd::Effect { at, vfx } if *at == pt(2, 3) && vfx.frames.len() == 2)));
}

#[test]
fn knockback_sets_velocity() {
    let w = World::new(5, 5);
    let ctx = ctx_at(pt(2, 3));
    let mut e = enemy(3, Vec::new());
    let atks = MeleeAtk::bulk_new::<4>(vec![Effect::Other(OtherEffect::Knockback)], crossterm::style::Color::Red, 1, Vfx::new(Vec::new()), &vec!['-', '|', '-', '|']).unwrap();
    e.atks = AtkPat::from_atks(atks).unwrap();
    let (_, q) = run(&w, &ctx, &e, &ActionType::ForceMelee(pt(0, 1), 0), pt(2, 2));
    assert!(q.iter().any(|c| matches!(c, Cmd::SetVel { at, vel } if *at == pt(2, 3) && *vel == Some(pt(0, 1)))));
}

#[test]
fn pathfind_steps_towards_player() {
    let mut w = World::new(7, 3);
    let ctx = ctx_at(pt(6, 1));
    w.insert_ent(pt(6, 1), player());
    w.insert_ent(pt(0, 1), enemy(3, Vec::new()));
    let e = enemy(3, Vec::new());
    let (o, _) = run(&w, &ctx, &e, &ActionType::Pathfind, pt(0, 1));
    assert!(o.acted);
    assert_eq!(o.pos.x, 1);
    let goals = vec![pt(5, 1)];
    assert_eq!(find_first_step(&w, pt(0, 1), &goals, &get_all_adjacent(), 20), PathStep::Step(pt(1, 1)));
    assert_eq!(find_first_step(&w, pt(0, 1), &goals, &get_all_adjacent(), 3), PathStep::NoPath);
    assert_eq!(find_first_step(&w, pt(5, 1), &goals, &get_all_adjacent(), 3), PathStep::Arrived);
}

#[test]
fn fire_needs_target_in_range_and_sight() {
    let mut w = World::new(7, 3);
    let ctx = ctx_at(pt(5, 1));
    w.insert_ent(pt(5, 1), player());
    let mut e = enemy(3, Vec::new());
    e.atks.ranged_atks.push(RangedAtk::new(
        vec![Effect::DoDmg(DmgInst::dmg(2, Chance::certain()))],
        5,
        Vec::new(),
        LineFx { hit: Glyph::plain('*'), miss: Glyph::plain('.'), frames: 1 },
    ));
    let (o, q) = run(&w, &ctx, &e, &ActionType::Fire(0), pt(1, 1));
    assert!(o.acted);
    assert!(q.iter().any(|c| matches!(c, Cmd::Damage { at, .. } if *at == pt(5, 1))));
    let (o, _) = run(&w, &ctx, &e, &ActionType::Fire(1), pt(1, 1));
    assert!(!o.acted);
    w.set_tile(pt(3, 1), wall());
    let (o, _) = run(&w, &ctx, &e, &ActionType::Fire(0), pt(1, 1));
    assert!(!o.acted);
    let (o, _) = run(&w, &ctx, &e, &ActionType::Fire(0), pt(6, 2));
    assert!(o.acted);
}

#[test]
fn entering_a_room_wakes_enemies_and_locks_doors() {
    let mut w = World::new(7, 7);
    for i in 0..7 {
        w.set_tile(pt(i, 0), wall());
        w.set_tile(pt(i, 6), wall());
        w.set_tile(pt(0, i), wall());
        w.set_tile(pt(6, i), wall());
    }
    let room = Rect { x0: 0, y0: 0, x1: 6, y1: 6 };
    let mut door = Tile::new_empty();
    door.door = Some((room, Rect { x0: 0, y0: 6, x1: 6, y1: 12 }));
    w.set_tile(pt(3, 6), door);
    w.set_tile(pt(6, 3), door);
    let mut a = enemy(3, Vec::new());
    a.dormant = true;
    let mut b = enemy(3, Vec::new());
    b.dormant = true;
    w.insert_ent(pt(2, 2), a);
    w.insert_ent(pt(4, 3), b);
    let mut p = player();
    p.acted = false;
    w.insert_ent(pt(3, 6), p);
    let mut ctx = ctx_at(pt(3, 6));
    play_turn(&mut w, &mut ctx, pt(3, 6), &ActionType::TryMove(pt(0, -1)));
    assert_eq!(ctx.player, pt(3, 5));
    assert_eq!(ctx.enemies_remaining, 2);
    for at in [pt(2, 2), pt(4, 3)] {
        let e = w.get_ent(at).unwrap();
        assert!(!e.dormant);
        assert!(e.acted);
    }
    for d in [pt(3, 6), pt(6, 3)] {
        assert_eq!(w.get_ent(d).unwrap().special, Special::WallSentry);
    }
    assert!(w.get_tile(pt(1, 1)).unwrap().revealed);
    assert!(w.get_tile(pt(0, 0)).unwrap().revealed);
    let mut q = Vec::new();
    let mut ctx2 = ctx_at(pt(3, 5));
    let r = reveal_room(&w, &mut ctx2, pt(3, 5), &mut q);
    assert_eq!(r.woken, 0);
    assert_eq!(ctx2.enemies_remaining, 0);
    assert!(!q.iter().any(|c| matches!(c, Cmd::Spawn { .. })));
}

#[test]
fn slide_into_wall_stops_in_place() {
    let mut w = World::new(5, 3);
    let mut ice = Tile::new_empty();
    ice.slippery = true;
    w.set_tile(pt(1, 1), ice);
    w.set_tile(pt(2, 1), wall());
    let mut e = enemy(3, Vec::new());
    e.vel = Some(pt(1, 0));
    w.insert_ent(pt(1, 1), e);
    let mut ctx = ctx_at(pt(4, 2));
    play_turn(&mut w, &mut ctx, pt(1, 1), &ActionType::Wait);
    let e = w.get_ent(pt(1, 1)).unwrap();
    assert_eq!(e.vel, None);
    assert!(e.acted);
}

#[test]
fn slide_onto_floor_moves_once_and_stops() {
    let mut w = World::new(5, 3);
    let mut ice = Tile::new_empty();
    ice.slippery = true;
    w.set_tile(pt(1, 1), ice);
    let mut e = enemy(3, Vec::new());
    e.vel = Some(pt(1, 0));
    w.insert_ent(pt(1, 1), e);
    let mut ctx = ctx_at(pt(4, 2));
    play_turn(&mut w, &mut ctx, pt(1, 1), &ActionType::Wait);
    assert!(w.get_ent(pt(1, 1)).is_none());
    let e = w.get_ent(pt(2, 1)).unwrap();
    assert_eq!(e.vel, None);
}

#[test]
fn slide_onto_ice_keeps_sliding() {
    let mut w = World::new(5, 3);
    let mut ice = Tile::new_empty();
    ice.slippery = true;
    w.set_tile(pt(1, 1), ice);
    w.set_tile(pt(2, 1), ice);
    let mut e = enemy(3, Vec::new());
    e.vel = Some(pt(1, 0));
    w.insert_ent(pt(1, 1), e);
    let mut ctx = ctx_at(pt(4, 2));
    play_turn(&mut w, &mut ctx, pt(1, 1), &ActionType::Wait);
    assert_eq!(w.get_ent(pt(2, 1)).unwrap().vel, Some(pt(1, 0)));
}

#[test]
fn step_effects_fire_on_entry() {
    let mut w = World::new(5, 3);
    let mut exit = Tile::new_empty();
    exit.step_effect = Some(StepEffect::Exit);
    w.set_tile(pt(2, 1), exit);
    w.insert_ent(pt(1, 1), player());
    let mut ctx = ctx_at(pt(1, 1));
    play_turn(&mut w, &mut ctx, pt(1, 1), &ActionType::TryMove(pt(1, 0)));
    assert!(ctx.exit_reached);
}

#[test]
fn dead_entities_and_free_sentries_act_first() {
    let mut w = World::new(5, 5);
    let mut ctx = ctx_at(pt(0, 0));
    ctx.enemies_remaining = 1;
    w.insert_ent(pt(0, 0), player());
    let mut d = enemy(3, Vec::new());
    d.apply_dmg(DmgInst::dmg(9, Chance::certain()));
    w.insert_ent(pt(3, 3), d);
    w.insert_ent(pt(1, 1), enemy(3, Vec::new()));
    assert_eq!(highest_priority(&w, &ctx), Some(pt(3, 3)));
    play_turn(&mut w, &mut ctx, pt(3, 3), &ActionType::Wait);
    assert!(w.get_ent(pt(3, 3)).is_none());
    assert_eq!(ctx.enemies_remaining, 0);
    assert_eq!(highest_priority(&w, &ctx), Some(pt(1, 1)));
    let s = untitled_bandit::turn::sentry();
    assert_eq!(s.priority(0, 0), u32::MAX);
    assert_eq!(s.priority(1, 0), 0);
    assert_eq!(player().priority(0, 0), 1);
    assert!(highest_priority(&World::new(2, 2), &ctx).is_none());
}

#[test]
fn presets_and_key_pickup() {
    let c = crossterm::style::Color::Yellow;
    let conv = create_conveyor(pt(-1, 0), true, c);
    assert_eq!(conv.ch.unwrap().ch, '\u{2190}');
    assert_eq!(conv.step_effect, Some(StepEffect::Conveyor(pt(-1, 0))));
    assert_eq!(get_exit(false, c).step_effect, Some(StepEffect::Exit));
    let door = get_locked_door(true, 2, c);
    assert!(door.blocking);
    assert_eq!(door.locked, Some(2));
    let mut w = World::new(5, 3);
    w.set_tile(pt(2, 1), get_key(true, 2, c));
    w.set_tile(pt(3, 1), door);
    w.insert_ent(pt(1, 1), player());
    let mut ctx = ctx_at(pt(1, 1));
    play_turn(&mut w, &mut ctx, pt(1, 1), &ActionType::TryMove(pt(1, 0)));
    assert_eq!(ctx.keys[2], 1);
    assert_eq!(w.get_tile(pt(2, 1)).unwrap().step_effect, None);
    play_turn(&mut w, &mut ctx, pt(2, 1), &ActionType::TryMove(pt(1, 0)));
    assert!(w.get_ent(pt(2, 1)).is_some());
    assert!(!w.get_tile(pt(3, 1)).unwrap().blocking);
    assert_eq!(ctx.keys[2], 0);
    play_turn(&mut w, &mut ctx, pt(2, 1), &ActionType::TryMove(pt(1, 0)));
    assert_eq!(ctx.player, pt(3, 1));
}

#[test]
fn exit_needs_a_cleared_room() {
    let mut w = World::new(5, 3);
    let mut exit = Tile::new_empty();
    exit.step_effect = Some(StepEffect::Exit);
    w.set_tile(pt(2, 1), exit);
    w.insert_ent(pt(1, 1), player());
    let mut ctx = ctx_at(pt(1, 1));
    ctx.enemies_remaining = 1;
    play_turn(&mut w, &mut ctx, pt(1, 1), &ActionType::TryMove(pt(1, 0)));
    assert!(!ctx.exit_reached);
    assert_eq!(ctx.player, pt(2, 1));
}

#[test]
fn conveyor_pushes_and_program_cursor_advances() {
    let mut w = World::new(6, 3);
    let mut conv = Tile::new_empty();
    conv.step_effect = Some(StepEffect::Conveyor(pt(0, 1)));
    w.set_tile(pt(2, 1), conv);
    w.insert_ent(pt(1, 1), enemy(3, vec![ActionType::TryMove(pt(1, 0)), ActionType::Wait]));
    let mut ctx = ctx_at(pt(5, 2));
    let (q, out) = take_turn(&w, &mut ctx, pt(1, 1), &ActionType::Wait);
    assert_eq!(out, Some(Outcome { pos: pt(2, 1), acted: true, cursor: None }));
    assert!(q.iter().any(|c| matches!(c, Cmd::SetCursor { at, cursor: 1 } if *at == pt(1, 1))));
    play_turn(&mut w, &mut ctx, pt(1, 1), &ActionType::Wait);
    let e = w.get_ent(pt(2, 1)).unwrap();
    assert_eq!(e.vel, Some(pt(0, 1)));
    assert_eq!(e.cursor, 1);
}

#[test]
fn chain_queues_only_the_first_action_when_it_acts() {
    let mut w = World::new(5, 5);
    let ctx = ctx_at(pt(2, 3));
    w.insert_ent(pt(2, 3), player());
    let e = enemy(3, Vec::new());
    let chain = ActionType::Chain(Box::new(ActionType::TryMelee), Box::new(ActionType::Arbitrary(Script::HealSelf(1))));
    let (o, q) = run(&w, &ctx, &e, &chain, pt(2, 2));
    assert!(o.acted);
    assert_eq!(q.len(), 2);
    assert!(matches!(q[1], Cmd::Damage { at, inst } if at == pt(2, 3) && inst.dmg == DmgType::Dmg(1)));
    let chain = ActionType::Chain(Box::new(ActionType::TryMelee), Box::new(ActionType::Arbitrary(Script::HealSelf(1))));
    let (o, q) = run(&w, &ctx, &e, &chain, pt(0, 0));
    assert!(o.acted);
    assert_eq!(q.len(), 1);
    assert!(matches!(q[0], Cmd::Damage { at, inst } if at == pt(0, 0) && inst.dmg == DmgType::Heal(1)));
}

#[test]
fn effect_commands_follow_the_roll() {
    let miss = Vfx::new_opaque(Glyph::plain('?'), 3);
    let inst = DmgInst::dmg(2, Chance::certain());
    let hit = effect_cmds(Effect::DoDmg(inst), true, pt(0, 0), pt(0, 0), pt(1, 0), &miss);
    assert!(matches!(hit[..], [Cmd::Damage { at, .. }] if at == pt(1, 0)));
    let missed = effect_cmds(Effect::DoDmg(inst), false, pt(0, 0), pt(0, 0), pt(1, 0), &miss);
    assert!(matches!(&missed[..], [Cmd::Effect { at, vfx }] if *at == pt(1, 0) && vfx.frames.len() == 3));
    let pull = effect_cmds(Effect::Other(OtherEffect::Pull), true, pt(0, 0), pt(0, 0), pt(4, 0), &miss);
    assert!(matches!(pull[..], [Cmd::MoveTo { from, to }] if from == pt(4, 0) && to == pt(2, 0)));
}

#[test]
fn path_search_takes_a_shortest_route_around_walls() {
    let mut w = World::new(5, 5);
    for y in 0..4 {
        w.set_tile(pt(2, y), wall());
    }
    let goals = vec![pt(4, 0)];
    // The only way round is twelve steps long.
    let first = find_first_step(&w, pt(0, 0), &goals, &get_all_adjacent(), 20);
    assert!(first == PathStep::Step(pt(0, 1)) || first == PathStep::Step(pt(1, 0)));
    assert_eq!(find_first_step(&w, pt(0, 0), &goals, &get_all_adjacent(), 11), PathStep::NoPath);
    assert!(matches!(find_first_step(&w, pt(0, 0), &goals, &get_all_adjacent(), 12), PathStep::Step(_)));
}
