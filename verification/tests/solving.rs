use dog_rabbit::{answer, assess, best_candidate, choices, judge, play, respond, solve};
use dog_rabbit::{Candidate, Entity, Estimate, Game, GameState, Opt};
use rand::rngs::StdRng;
use rand::SeedableRng;

fn setup(rows: [&str; 3]) -> Game {
    let lines: Vec<String> = rows.iter().map(|r| r.to_string()).collect();
    Game::parse(&lines).expect("three rows of five cells")
}

fn census(g: &Game) -> [usize; 3] {
    let mut n = [0; 3];
    for i in 0..3 {
        for j in 0..5 {
            match g.get(i, j) {
                Entity::Empty => n[0] += 1,
                Entity::Dog => n[1] += 1,
                Entity::Rabbit => n[2] += 1,
            }
        }
    }
    n
}

fn request(next: &str, mirror: bool) -> Opt {
    Opt { verbose: false, mirror, next: next.to_string() }
}

fn reversed(text: &str) -> String {
    text.lines().map(|l| l.chars().rev().collect::<String>() + "\n").collect()
}

#[test]
fn assess_weighs_every_legal_move() {
    let g = setup([".DRD.", "DDDDD", ".DD.."]);
    let mut rng = StdRng::seed_from_u64(1);
    let cands = assess(&g, Entity::Dog, &mut rng);
    let ways = choices(&g, Entity::Dog);
    assert_eq!(ways, vec![((1, 2), (2, 3)), ((1, 3), (2, 3)), ((2, 2), (2, 3))]);
    assert_eq!(cands.len(), ways.len());
    for (c, &m) in cands.iter().zip(ways.iter()) {
        assert_eq!(c.choice, m);
        assert_eq!(c.board, play(&g, m));
        assert_eq!(c.chance.trials, 200);
    }
    assert_eq!(cands[0].chance, Estimate { wins: 0, trials: 200 });
    assert_eq!(cands[1].chance, Estimate { wins: 200, trials: 200 });
    assert_eq!(cands[2].chance, Estimate { wins: 200, trials: 200 });
    assert_eq!(best_candidate(&cands), Some(1));
}

#[test]
fn assess_of_a_side_without_moves_is_empty() {
    let g = setup(["...D.", "...DR", "...D."]);
    let mut rng = StdRng::seed_from_u64(2);
    assert!(assess(&g, Entity::Rabbit, &mut rng).is_empty());
    assert!(assess(&g, Entity::Dog, &mut rng).is_empty());
    assert!(assess(&g, Entity::Empty, &mut rng).is_empty());
}

#[test]
fn best_candidate_needs_a_chance_above_zero() {
    let g = Game::empty();
    let cand = |wins: usize| Candidate {
        choice: ((0, 1), (0, 2)),
        board: g,
        chance: Estimate { wins, trials: 200 },
    };
    assert_eq!(best_candidate(&vec![cand(0), cand(0)]), None);
    assert_eq!(best_candidate(&vec![cand(0), cand(1), cand(1)]), Some(1));
    assert_eq!(best_candidate(&vec![cand(120), cand(7), cand(199), cand(199)]), Some(2));
    assert_eq!(best_candidate(&Vec::new()), None);
}

#[test]
fn solve_gives_the_first_of_the_best_moves() {
    let g = setup([".DRD.", "DDDDD", ".DD.."]);
    for seed in 0..3 {
        let mut rng = StdRng::seed_from_u64(seed);
        let h = solve(&g, Entity::Dog, &mut rng).expect("the dogs have a good move");
        assert_eq!(h.write(), ".DRD.\nDDD.D\n.DDD.\n");
    }
}

#[test]
fn solve_without_an_immediate_win_prints_a_board() {
    let g = setup([".DRD.", "DDDDD", ".DD.."]);
    for choice in choices(&g, Entity::Dog) {
        assert_ne!(judge(&play(&g, choice)), GameState::DogWin);
    }
    let mut rng = StdRng::seed_from_u64(5);
    let a = respond(&request("D", false), &g, &mut rng);
    let text = answer(&a.best);
    assert_ne!(text, "-1\n");
    assert_eq!(text.lines().count(), 3);
    assert!(text.lines().all(|l| l.chars().count() == 5));
    let h = a.best.expect("a move was found");
    assert_eq!(census(&h), census(&g));
    assert_eq!(text, h.write());
}

#[test]
fn solve_cannot_help_once_the_rabbit_is_home() {
    let g = setup([".R...", "D.D..", ".D..."]);
    assert_eq!(judge(&g), GameState::RabbitWin);
    let mut rng = StdRng::seed_from_u64(7);
    assert!(!choices(&g, Entity::Dog).is_empty());
    assert_eq!(solve(&g, Entity::Dog, &mut rng), None);
    assert_eq!(solve(&g, Entity::Rabbit, &mut rng), None);
    let cands = assess(&g, Entity::Dog, &mut rng);
    for c in cands.iter() {
        assert_eq!(judge(&c.board), GameState::RabbitWin);
        assert_eq!(c.chance, Estimate { wins: 0, trials: 200 });
    }
}

#[test]
fn solve_without_moves_answers_minus_one() {
    let mut rng = StdRng::seed_from_u64(9);
    let no_rabbit = setup([".D...", "D....", ".D..."]);
    assert_eq!(solve(&no_rabbit, Entity::Rabbit, &mut rng), None);
    let a = respond(&request("R", false), &no_rabbit, &mut rng);
    assert!(a.trace.is_empty());
    assert_eq!(a.best, None);
    assert_eq!(answer(&a.best), "-1\n");
    let blocked = setup(["...D.", "...DR", "...D."]);
    for next in ["D", "R"] {
        for mirror in [false, true] {
            let a = respond(&request(next, mirror), &blocked, &mut rng);
            assert_eq!(answer(&a.best), "-1\n");
        }
    }
    assert_eq!(solve(&Game::empty(), Entity::Empty, &mut rng), None);
}

#[test]
fn answer_is_the_board_or_minus_one() {
    let g = setup([".D...", "D...R", ".D..."]);
    assert_eq!(answer(&Some(g)), ".D...\nD...R\n.D...\n");
    assert_eq!(answer(&None), "-1\n");
}

#[test]
fn respond_reads_the_side_from_the_name() {
    let g = setup([".DRD.", "DDDDD", ".DD.."]);
    let mut rng = StdRng::seed_from_u64(11);
    for name in ["D", "Dog", "dog", "d"] {
        let a = respond(&request(name, false), &g, &mut rng);
        assert_eq!(a.trace.len(), 3);
        assert_eq!(answer(&a.best), ".DRD.\nDDD.D\n.DDD.\n");
    }
    let stuck = setup([".DRD.", "DDD.D", ".DDD."]);
    for name in ["R", "rabbit", "anything"] {
        let a = respond(&request(name, false), &stuck, &mut rng);
        assert!(a.trace.is_empty());
        assert_eq!(answer(&a.best), "-1\n");
    }
}

#[test]
fn respond_mirrored_solves_the_mirror_image() {
    let g = setup([".DRD.", "DDDDD", "..DD."]);
    let mut rng = StdRng::seed_from_u64(13);
    let a = respond(&request("D", true), &g, &mut rng);
    let seen = g.mirror();
    assert_eq!(seen.write(), ".DRD.\nDDDDD\n.DD..\n");
    assert_eq!(a.trace.len(), 3);
    for (c, &m) in a.trace.iter().zip(choices(&seen, Entity::Dog).iter()) {
        assert_eq!(c.choice, m);
        assert_eq!(c.board, play(&seen, m));
    }
    assert_eq!(answer(&a.best), ".DRD.\nD.DDD\n.DDD.\n");
}

#[test]
fn mirrored_requests_give_mirrored_answers() {
    let g = setup([".DRD.", "DDDDD", "..DD."]);
    let text = g.write();
    let lines: Vec<String> = reversed(&text).lines().map(|l| l.to_string()).collect();
    let flipped = Game::parse(&lines).unwrap();
    assert_eq!(flipped, g.mirror());
    for seed in 0..3 {
        let mut a = StdRng::seed_from_u64(seed);
        let mut b = StdRng::seed_from_u64(seed);
        let one = answer(&respond(&request("D", true), &g, &mut a).best);
        let other = answer(&respond(&request("D", false), &flipped, &mut b).best);
        assert_ne!(one, "-1\n");
        assert_eq!(one, reversed(&other));
    }
}

#[test]
fn solve_in_an_open_position_makes_a_legal_move() {
    let g = setup(["...D.", "..D.R", "..D.."]);
    let ways = choices(&g, Entity::Dog);
    for &choice in ways.iter() {
        assert_ne!(judge(&play(&g, choice)), GameState::DogWin);
    }
    let mut rng = StdRng::seed_from_u64(2024);
    let a = respond(&request("D", false), &g, &mut rng);
    assert_eq!(a.trace.len(), ways.len());
    for c in a.trace.iter() {
        assert_eq!(c.chance.trials, 200);
        assert!(c.chance.wins <= 200);
    }
    let k = best_candidate(&a.trace).expect("a move leaves the dogs a chance");
    for (j, c) in a.trace.iter().enumerate() {
        assert!(c.chance.wins <= a.trace[k].chance.wins);
        if j < k {
            assert!(c.chance.wins < a.trace[k].chance.wins);
        }
    }
    let h = a.best.expect("a move was found");
    assert_eq!(h, play(&g, ways[k]));
    assert_eq!(census(&h), census(&g));
    let text = answer(&a.best);
    assert_eq!(text.lines().count(), 3);
    assert_ne!(text, "-1\n");
}
