use dice::report::{format_roll, report, run, sum_rolls};
use dice::roller::{roll, roll_all};
use dice::token::TokenType;

#[test]
fn roll_stays_in_range() {
    let mut rng = rand::thread_rng();
    for sides in 1..=8usize {
        let v = roll(50, sides, &mut rng).unwrap();
        assert_eq!(v.len(), 50);
        assert!(v.iter().all(|&x| 1 <= x && x <= sides));
    }
}

#[test]
fn one_sided_die_always_one() {
    let mut rng = rand::thread_rng();
    assert_eq!(roll(4, 1, &mut rng), Some(vec![1, 1, 1, 1]));
}

#[test]
fn roll_zero_dice_is_empty() {
    let mut rng = rand::thread_rng();
    assert_eq!(roll(0, 6, &mut rng), Some(Vec::new()));
    assert_eq!(roll(0, 1, &mut rng), Some(Vec::new()));
}

#[test]
fn roll_zero_sides_is_refused() {
    let mut rng = rand::thread_rng();
    assert_eq!(roll(3, 0, &mut rng), None);
    assert_eq!(roll(0, 0, &mut rng), None);
}

#[test]
fn roll_all_skips_what_is_not_rolled() {
    let mut rng = rand::thread_rng();
    let tokens = vec![
        TokenType::BadToken,
        TokenType::DiceCode { number: 2, sides: 0 },
        TokenType::DiceCode { number: 3, sides: 1 },
    ];
    assert_eq!(roll_all(&tokens, &mut rng), vec![vec![], vec![], vec![1, 1, 1]]);
}

#[test]
fn sums_exactly() {
    assert_eq!(sum_rolls(&vec![]), 0);
    assert_eq!(sum_rolls(&vec![1, 2, 3]), 6);
    assert_eq!(sum_rolls(&vec![usize::MAX, usize::MAX]), 2 * (usize::MAX as u128));
}

#[test]
fn block_format() {
    assert_eq!(format_roll(3, 6, &vec![1, 5, 6]), "3d6:\n\t1, 5, 6, \nTotal: 12\n---\n");
    assert_eq!(format_roll(0, 6, &vec![]), "0d6:\n\t\nTotal: 0\n---\n");
    assert_eq!(format_roll(1, 20, &vec![17]), "1d20:\n\t17, \nTotal: 17\n---\n");
    assert_eq!(format_roll(2, 100, &vec![100, 10]), "2d100:\n\t100, 10, \nTotal: 110\n---\n");
}

#[test]
fn report_skips_bad_tokens_and_sums() {
    let tokens = vec![
        TokenType::BadToken,
        TokenType::DiceCode { number: 3, sides: 6 },
        TokenType::DiceCode { number: 2, sides: 0 },
        TokenType::DiceCode { number: 1, sides: 20 },
    ];
    let rolls = vec![vec![], vec![2, 4, 6], vec![], vec![19]];
    assert_eq!(
        report(&tokens, &rolls),
        "3d6:\n\t2, 4, 6, \nTotal: 12\n---\n1d20:\n\t19, \nTotal: 19\n---\nTotal roll:31\n"
    );
}

#[test]
fn report_of_nothing() {
    assert_eq!(report(&vec![], &vec![]), "Total roll:0\n");
    assert_eq!(report(&vec![TokenType::BadToken], &vec![vec![]]), "Total roll:0\n");
}

fn args(a: &[&str]) -> Vec<String> {
    a.iter().map(|s| s.to_string()).collect()
}

fn roll_values(line: &str) -> Vec<usize> {
    line.trim_start_matches('\t')
        .split(", ")
        .filter(|p| !p.is_empty())
        .map(|p| p.parse().unwrap())
        .collect()
}

#[test]
fn run_three_d_six() {
    let mut rng = rand::thread_rng();
    let out = run(&args(&["3d6"]), &mut rng);
    let lines: Vec<&str> = out.lines().collect();
    assert_eq!(lines.len(), 5);
    assert_eq!(lines[0], "3d6:");
    let v = roll_values(lines[1]);
    assert_eq!(v.len(), 3);
    assert!(v.iter().all(|&x| 1 <= x && x <= 6));
    let sum: usize = v.iter().sum();
    assert_eq!(lines[2], format!("Total: {}", sum));
    assert_eq!(lines[3], "---");
    assert_eq!(lines[4], format!("Total roll:{}", sum));
}

#[test]
fn run_d_twenty() {
    let mut rng = rand::thread_rng();
    let out = run(&args(&["d20"]), &mut rng);
    let lines: Vec<&str> = out.lines().collect();
    assert_eq!(lines[0], "1d20:");
    let v = roll_values(lines[1]);
    assert_eq!(v.len(), 1);
    assert!(1 <= v[0] && v[0] <= 20);
    assert_eq!(lines[4], format!("Total roll:{}", v[0]));
}

#[test]
fn run_drops_invalid_silently() {
    let mut rng = rand::thread_rng();
    let out = run(&args(&["abc", "3d6"]), &mut rng);
    let lines: Vec<&str> = out.lines().collect();
    assert_eq!(lines.len(), 5);
    assert_eq!(lines[0], "3d6:");
    let sum: usize = roll_values(lines[1]).iter().sum();
    assert_eq!(lines[4], format!("Total roll:{}", sum));
}

#[test]
fn run_without_arguments() {
    let mut rng = rand::thread_rng();
    assert_eq!(run(&Vec::new(), &mut rng), "Total roll:0\n");
}

#[test]
fn run_zero_dice() {
    let mut rng = rand::thread_rng();
    assert_eq!(run(&args(&["0d6"]), &mut rng), "0d6:\n\t\nTotal: 0\n---\nTotal roll:0\n");
}

#[test]
fn run_zero_sides_contributes_nothing() {
    let mut rng = rand::thread_rng();
    assert_eq!(run(&args(&["3d0", "2d1"]), &mut rng), "2d1:\n\t1, 1, \nTotal: 2\n---\nTotal roll:2\n");
}

#[test]
fn grand_total_adds_blocks() {
    let mut rng = rand::thread_rng();
    let out = run(&args(&["2d6", "x", "4d1", "d3"]), &mut rng);
    let lines: Vec<&str> = out.lines().collect();
    assert_eq!(lines.len(), 13);
    let mut total = 0usize;
    for b in 0..3 {
        let block_sum: usize = roll_values(lines[4 * b + 1]).iter().sum();
        assert_eq!(lines[4 * b + 2], format!("Total: {}", block_sum));
        total += block_sum;
    }
    assert_eq!(lines[12], format!("Total roll:{}", total));
}
