use dog_rabbit::{choices, judge, is_win_for, play, play_trivial};
use dog_rabbit::{play_good, play_random, play_random_at, prob_to_win, prob_to_win_good};
use dog_rabbit::{rollplay_good, rollplay_random};
use dog_rabbit::{Entity, Estimate, Game, GameState};
use rand::rngs::StdRng;
use rand::SeedableRng;

fn layout(rows: [&str; 3]) -> Game {
    let lines: Vec<String> = rows.iter().map(|r| r.to_string()).collect();
    Game::parse(&lines).expect("three rows of five cells")
}

fn pieces(g: &Game, e: Entity) -> usize {
    let mut n = 0;
    for i in 0..3 {
        for j in 0..5 {
            if g.get(i, j) == e {
                n += 1;
            }
        }
    }
    n
}

#[test]
fn play_random_at_takes_the_move_at_the_index() {
    let g = layout([".D...", "D...R", ".D..."]);
    for side in [Entity::Dog, Entity::Rabbit] {
        let ways = choices(&g, side);
        for (pick, &choice) in ways.iter().enumerate() {
            assert_eq!(play_random_at(&g, side, pick), play(&g, choice));
        }
    }
}

#[test]
fn play_random_at_prefers_the_trivial_move() {
    let g = layout(["...D.", "..D.R", "...D."]);
    let won = layout(["...D.", "...DR", "...D."]);
    for pick in 0..choices(&g, Entity::Dog).len() {
        assert_eq!(play_random_at(&g, Entity::Dog, pick), won);
    }
}

#[test]
fn play_random_cannot_move_without_moves() {
    let mut rng = StdRng::seed_from_u64(1);
    let g = layout(["...D.", "...DR", "...D."]);
    assert_eq!(play_random(&g, Entity::Rabbit, &mut rng), None);
    assert_eq!(play_random(&g, Entity::Dog, &mut rng), None);
    assert_eq!(play_random(&g, Entity::Empty, &mut rng), None);
    assert_eq!(play_random(&Game::empty(), Entity::Dog, &mut rng), None);
}

#[test]
fn play_random_takes_the_trivial_move() {
    let g = layout(["...D.", "..D.R", "...D."]);
    for seed in 0..50 {
        let mut rng = StdRng::seed_from_u64(seed);
        assert_eq!(play_random(&g, Entity::Dog, &mut rng), play_trivial(&g, Entity::Dog));
    }
}

#[test]
fn play_random_makes_a_legal_move() {
    let g = layout([".D...", "D...R", ".D..."]);
    for side in [Entity::Dog, Entity::Rabbit] {
        let after: Vec<Game> = choices(&g, side).iter().map(|&c| play(&g, c)).collect();
        let mut seen = vec![false; after.len()];
        for seed in 0..300 {
            let mut rng = StdRng::seed_from_u64(seed);
            let h = play_random(&g, side, &mut rng).expect("the side can move");
            let k = after.iter().position(|a| *a == h).expect("a legal move was made");
            seen[k] = true;
        }
        assert!(seen.iter().all(|&s| s));
    }
}

#[test]
fn play_random_repeats_with_the_same_seed() {
    let g = layout([".D...", "D...R", ".D..."]);
    for seed in 0..20 {
        let mut a = StdRng::seed_from_u64(seed);
        let mut b = StdRng::seed_from_u64(seed);
        assert_eq!(play_random(&g, Entity::Dog, &mut a), play_random(&g, Entity::Dog, &mut b));
    }
}

#[test]
fn rollplay_random_of_a_stuck_side_is_the_judgement() {
    let mut rng = StdRng::seed_from_u64(3);
    let trapped = layout(["...D.", "...DR", "...D."]);
    assert_eq!(rollplay_random(&trapped, Entity::Rabbit, &mut rng), GameState::DogWin);
    assert_eq!(rollplay_random(&trapped, Entity::Dog, &mut rng), GameState::DogWin);
    let home = layout([".R...", "D.D..", ".D..."]);
    assert_eq!(rollplay_random(&home, Entity::Rabbit, &mut rng), GameState::RabbitWin);
    assert_eq!(rollplay_random(&Game::empty(), Entity::Dog, &mut rng), GameState::InGame);
    let start = layout([".D...", "D...R", ".D..."]);
    assert_eq!(rollplay_random(&start, Entity::Empty, &mut rng), GameState::InGame);
}

#[test]
fn rollplay_random_ends_when_the_rabbit_is_home() {
    let home = layout([".R...", "D.D..", ".D..."]);
    for seed in 0..50 {
        let mut rng = StdRng::seed_from_u64(seed);
        assert_eq!(rollplay_random(&home, Entity::Dog, &mut rng), GameState::RabbitWin);
    }
}

#[test]
fn rollplay_random_stops_after_thirty_moves() {
    let lonely = layout([".....", "..D..", "....."]);
    let mut rng = StdRng::seed_from_u64(5);
    assert_eq!(rollplay_random(&lonely, Entity::Dog, &mut rng), GameState::InGame);
    let two = layout(["..D..", ".....", "..D.."]);
    for seed in 0..20 {
        let mut rng = StdRng::seed_from_u64(seed);
        assert_eq!(rollplay_random(&two, Entity::Dog, &mut rng), GameState::InGame);
    }
}

#[test]
fn rollplay_random_from_the_start_ends_somehow() {
    let start = layout([".D...", "D...R", ".D..."]);
    let mut dog = 0;
    let mut rabbit = 0;
    for seed in 0..200 {
        let mut rng = StdRng::seed_from_u64(seed);
        match rollplay_random(&start, Entity::Dog, &mut rng) {
            GameState::DogWin => dog += 1,
            GameState::RabbitWin => rabbit += 1,
            GameState::InGame => {}
        }
    }
    assert!(dog + rabbit <= 200);
    assert!(rabbit > 0);
}

#[test]
fn prob_to_win_of_no_side_is_one_half() {
    let mut rng = StdRng::seed_from_u64(7);
    let start = layout([".D...", "D...R", ".D..."]);
    assert_eq!(prob_to_win(&start, Entity::Empty, 100, &mut rng), Estimate { wins: 1, trials: 2 });
    assert_eq!(prob_to_win(&start, Entity::Empty, 0, &mut rng), Estimate { wins: 1, trials: 2 });
    assert_eq!(prob_to_win_good(&start, Entity::Empty, 5, &mut rng), Estimate { wins: 1, trials: 2 });
}

#[test]
fn prob_to_win_of_a_stuck_side_is_certain() {
    let mut rng = StdRng::seed_from_u64(11);
    let trapped = layout(["...D.", "...DR", "...D."]);
    assert_eq!(prob_to_win(&trapped, Entity::Rabbit, 100, &mut rng), Estimate { wins: 0, trials: 100 });
    assert_eq!(prob_to_win(&trapped, Entity::Dog, 100, &mut rng), Estimate { wins: 100, trials: 100 });
    let home = layout([".R...", "D.D..", ".D..."]);
    assert_eq!(prob_to_win(&home, Entity::Rabbit, 40, &mut rng), Estimate { wins: 40, trials: 40 });
    assert_eq!(prob_to_win(&home, Entity::Dog, 40, &mut rng), Estimate { wins: 0, trials: 40 });
    assert_eq!(prob_to_win_good(&home, Entity::Rabbit, 40, &mut rng), Estimate { wins: 40, trials: 40 });
    assert_eq!(prob_to_win_good(&trapped, Entity::Rabbit, 9, &mut rng), Estimate { wins: 0, trials: 9 });
}

#[test]
fn prob_to_win_without_trials_counts_nothing() {
    let mut rng = StdRng::seed_from_u64(13);
    let start = layout([".D...", "D...R", ".D..."]);
    assert_eq!(prob_to_win(&start, Entity::Dog, 0, &mut rng), Estimate { wins: 0, trials: 0 });
    assert_eq!(prob_to_win_good(&start, Entity::Dog, 0, &mut rng), Estimate { wins: 0, trials: 0 });
}

#[test]
fn prob_to_win_counts_the_trials() {
    let start = layout([".D...", "D...R", ".D..."]);
    for (seed, trials) in [(1u64, 1usize), (2, 10), (3, 100), (4, 333)] {
        let mut rng = StdRng::seed_from_u64(seed);
        let e = prob_to_win(&start, Entity::Rabbit, trials, &mut rng);
        assert_eq!(e.trials, trials);
        assert!(e.wins <= e.trials);
    }
}

#[test]
fn prob_to_win_matches_the_rollouts() {
    let start = layout([".D...", "D...R", ".D..."]);
    for seed in 0..5 {
        let mut a = StdRng::seed_from_u64(seed);
        let mut b = StdRng::seed_from_u64(seed);
        let e = prob_to_win(&start, Entity::Rabbit, 50, &mut a);
        let mut wins = 0;
        for _ in 0..50 {
            if is_win_for(Entity::Rabbit, rollplay_random(&start, Entity::Rabbit, &mut b)) {
                wins += 1;
            }
        }
        assert_eq!(e, Estimate { wins, trials: 50 });
    }
}

#[test]
fn play_good_cannot_move_without_moves() {
    let mut rng = StdRng::seed_from_u64(17);
    let g = layout(["...D.", "...DR", "...D."]);
    for depth in 0..5 {
        assert_eq!(play_good(&g, Entity::Rabbit, depth, &mut rng), None);
        assert_eq!(play_good(&g, Entity::Dog, depth, &mut rng), None);
        assert_eq!(play_good(&g, Entity::Empty, depth, &mut rng), None);
    }
}

#[test]
fn play_good_takes_the_trivial_move() {
    let g = layout(["...D.", "..D.R", "...D."]);
    for depth in 0..5 {
        let mut rng = StdRng::seed_from_u64(19);
        assert_eq!(play_good(&g, Entity::Dog, depth, &mut rng), play_trivial(&g, Entity::Dog));
    }
}

#[test]
fn play_good_takes_the_move_that_leaves_the_rabbit_stuck() {
    let g = layout([".DRD.", "DDDDD", ".DD.."]);
    for seed in 0..5 {
        let mut rng = StdRng::seed_from_u64(seed);
        let h = play_good(&g, Entity::Dog, 0, &mut rng).expect("the dogs can move");
        assert_eq!(h.write(), ".DRD.\nDDD.D\n.DDD.\n");
    }
}

#[test]
fn play_good_at_the_cutoff_plays_at_random() {
    let g = layout([".D...", "D...R", ".D..."]);
    let after: Vec<Game> = choices(&g, Entity::Dog).iter().map(|&c| play(&g, c)).collect();
    for depth in [3usize, 4, 10] {
        for seed in 0..20 {
            let mut a = StdRng::seed_from_u64(seed);
            let mut b = StdRng::seed_from_u64(seed);
            let h = play_good(&g, Entity::Dog, depth, &mut a);
            assert_eq!(h, play_random(&g, Entity::Dog, &mut b));
            assert!(after.contains(&h.unwrap()));
        }
    }
}

#[test]
fn play_good_makes_a_legal_move_and_keeps_the_pieces() {
    let g = layout([".D...", "D...R", ".D..."]);
    for side in [Entity::Dog, Entity::Rabbit] {
        let after: Vec<Game> = choices(&g, side).iter().map(|&c| play(&g, c)).collect();
        let mut rng = StdRng::seed_from_u64(23);
        let h = play_good(&g, side, 0, &mut rng).expect("the side can move");
        assert!(after.contains(&h));
        for e in [Entity::Empty, Entity::Dog, Entity::Rabbit] {
            assert_eq!(pieces(&h, e), pieces(&g, e));
        }
    }
}

#[test]
fn rollplay_good_of_a_stuck_side_is_the_judgement() {
    let mut rng = StdRng::seed_from_u64(29);
    let trapped = layout(["...D.", "...DR", "...D."]);
    assert_eq!(rollplay_good(&trapped, Entity::Rabbit, &mut rng), GameState::DogWin);
    let home = layout([".R...", "D.D..", ".D..."]);
    assert_eq!(rollplay_good(&home, Entity::Rabbit, &mut rng), GameState::RabbitWin);
    assert_eq!(rollplay_good(&home, Entity::Dog, &mut rng), GameState::RabbitWin);
    assert_eq!(judge(&home), GameState::RabbitWin);
}

#[test]
fn rollplay_good_follows_the_forced_line() {
    let g = layout([".DRD.", "DDD.D", ".DDD."]);
    let mut rng = StdRng::seed_from_u64(31);
    assert_eq!(rollplay_good(&g, Entity::Rabbit, &mut rng), GameState::InGame);
    let freed = layout([".DRD.", "DD.DD", ".DDD."]);
    assert_eq!(rollplay_good(&freed, Entity::Rabbit, &mut rng), GameState::RabbitWin);
}
