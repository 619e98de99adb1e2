use plotterdesigner::lsystem::{parse_rules_text, LSystemGenerator, RuleSet, TurtleCommand};
use plotterdesigner::generators::GeneratorKind;
use plotterdesigner::path::{PathEl, Point};

fn s(v: &[char]) -> String {
    v.iter().collect()
}

fn pt(x: f64, y: f64) -> Point {
    Point { x: x.to_bits(), y: y.to_bits() }
}

#[test]
fn parses_one_rule_per_line() {
    let r = parse_rules_text("F=F[+F]F[-F]F\nG = GG ");
    assert_eq!(r.get_string('F').as_deref(), Some("F[+F]F[-F]F"));
    assert_eq!(r.get_string('G').as_deref(), Some("GG"));
    assert_eq!(r.get_string('X'), None);
}

#[test]
fn skips_comments_blank_lines_and_lines_without_equals() {
    let r = parse_rules_text("# F=nothing\n\n   \nX+Y\nA=B");
    assert_eq!(r.get_string('F'), None);
    assert_eq!(r.get_string('X'), None);
    assert_eq!(r.get_string('A').as_deref(), Some("B"));
}

#[test]
fn key_is_first_char_of_trimmed_left_side() {
    let r = parse_rules_text("  AB = x y \n=ignored");
    assert_eq!(r.get_string('A').as_deref(), Some("x y"));
    assert_eq!(r.get_string('B'), None);
    assert_eq!(r.get_string('='), None);
}

#[test]
fn value_keeps_later_equals_signs() {
    let r = parse_rules_text("A=B=C");
    assert_eq!(r.get_string('A').as_deref(), Some("B=C"));
}

#[test]
fn later_lines_override_earlier_ones() {
    let r = parse_rules_text("F=FF\nF=F+F");
    assert_eq!(r.get_string('F').as_deref(), Some("F+F"));
}

#[test]
fn empty_value_is_a_rule() {
    let r = parse_rules_text("F=");
    assert_eq!(r.get_string('F').as_deref(), Some(""));
}

#[test]
fn expand_rewrites_each_iteration() {
    let rules = parse_rules_text("F=F[+F]F[-F]F");
    let one = LSystemGenerator::expand("F", &rules, 1);
    assert_eq!(s(&one), "F[+F]F[-F]F");
    let two = LSystemGenerator::expand("F", &rules, 2);
    assert_eq!(two.len(), 61);
    assert_eq!(s(&two).matches('F').count(), 25);
}

#[test]
fn expand_with_zero_iterations_is_the_initial_string() {
    let rules = parse_rules_text("F=FF");
    assert_eq!(s(&LSystemGenerator::expand("F+F", &rules, 0)), "F+F");
}

#[test]
fn expand_without_rules_changes_nothing() {
    let rules = RuleSet::new();
    assert_eq!(s(&LSystemGenerator::expand("AB[+F]", &rules, 4)), "AB[+F]");
}

#[test]
fn expand_of_concatenation_is_concatenation_of_expansions() {
    let rules = parse_rules_text("A=AB\nB=A");
    let left = LSystemGenerator::expand("A", &rules, 3);
    let right = LSystemGenerator::expand("B", &rules, 3);
    let both = LSystemGenerator::expand("AB", &rules, 3);
    assert_eq!(s(&both), format!("{}{}", s(&left), s(&right)));
    assert_eq!(s(&left), "ABAAB");
}

#[test]
fn rule_insert_and_get() {
    let mut r = RuleSet::new();
    r.insert('F', vec!['G']);
    r.insert('F', vec!['H', 'H']);
    assert_eq!(r.get('F'), Some(&vec!['H', 'H']));
    assert_eq!(r.get('G'), None);
}

#[test]
fn turtle_reads_commands_and_ignores_unmatched_pops() {
    let prog: Vec<char> = "F+f-[G]]xZ".chars().collect();
    let cmds = LSystemGenerator::turtle_commands(&prog);
    assert_eq!(
        cmds,
        vec![
            TurtleCommand::Forward,
            TurtleCommand::TurnPositive,
            TurtleCommand::Jump,
            TurtleCommand::TurnNegative,
            TurtleCommand::Push,
            TurtleCommand::Forward,
            TurtleCommand::Pop,
        ]
    );
}

#[test]
fn pop_before_any_push_is_ignored() {
    let prog: Vec<char> = "]F".chars().collect();
    assert_eq!(LSystemGenerator::turtle_commands(&prog), vec![TurtleCommand::Forward]);
}

#[test]
fn trace_starts_at_origin_and_adds_lines_and_moves() {
    let cmds = vec![
        TurtleCommand::Forward,
        TurtleCommand::TurnPositive,
        TurtleCommand::Push,
        TurtleCommand::Jump,
        TurtleCommand::Pop,
    ];
    let positions = vec![pt(0.0, -12.0), pt(0.0, -12.0), pt(0.0, -12.0), pt(5.0, -20.0), pt(0.0, -12.0)];
    let p = LSystemGenerator::trace(&cmds, &positions);
    assert_eq!(p.name, "L-System");
    assert!(!p.closed);
    assert_eq!(
        p.geometry,
        vec![
            PathEl::MoveTo(pt(0.0, 0.0)),
            PathEl::LineTo(pt(0.0, -12.0)),
            PathEl::MoveTo(pt(5.0, -20.0)),
            PathEl::MoveTo(pt(0.0, -12.0)),
        ]
    );
}

#[test]
fn lsystem_generator_name_and_kind() {
    assert_eq!(LSystemGenerator.name(), "L-System");
    assert_eq!(LSystemGenerator.kind(), GeneratorKind::LSystem);
}
