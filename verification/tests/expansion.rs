use lsystem::l_system::LSystem;

fn algae_like() -> LSystem {
    LSystem::new("A", vec![('A', vec!['A', 'B'])], vec![])
}

#[test]
fn expand_0_and_1_equal_axiom() {
    let system = algae_like();
    assert_eq!(system.expand(0), vec!['A']);
    assert_eq!(system.expand(1), vec!['A']);
    let (_, _, sierpinski) = lsystem::examples::sierpinski();
    let start: Vec<char> = "F-G-G".chars().collect();
    assert_eq!(sierpinski.expand(0), start);
    assert_eq!(sierpinski.expand(1), start);
}

#[test]
fn expand_grows_by_generation() {
    let system = algae_like();
    assert_eq!(system.expand(2), vec!['A', 'B']);
    assert_eq!(system.expand(3), vec!['A', 'B', 'B']);
    assert_eq!(system.expand(4), vec!['A', 'B', 'B', 'B']);
}

#[test]
fn expand_length_monotone() {
    // every replacement in the koch system has length >= 1
    let (_, _, koch) = lsystem::examples::koch();
    let mut prev = koch.expand(1).len();
    for n in 2..6u32 {
        let len = koch.expand(n).len();
        assert!(len >= prev);
        prev = len;
    }
}

#[test]
fn expand_empty_axiom_stays_empty() {
    let system = LSystem::new("", vec![('A', vec!['A', 'B'])], vec![]);
    assert_eq!(system.expand(0), Vec::<char>::new());
    assert_eq!(system.expand(7), Vec::<char>::new());
}

#[test]
fn unknown_symbols_pass_through() {
    let system = LSystem::new("AXA", vec![('A', vec!['B'])], vec![]);
    assert_eq!(system.expand(2), vec!['B', 'X', 'B']);
}

#[test]
fn later_rule_overrides_earlier() {
    let system = LSystem::new("A", vec![('A', vec!['B']), ('A', vec!['C'])], vec![]);
    assert_eq!(system.expand(2), vec!['C']);
}

#[test]
fn expand_stream_1() {
    let system = algae_like();
    let s = system.expand_stream(1);
    let v: Vec<char> = s.to_vec();
    assert_eq!(v, vec!['A'])
}

#[test]
fn expand_stream_2() {
    let system = algae_like();
    let s = system.expand_stream(2);
    let v: Vec<char> = s.to_vec();
    assert_eq!(v, vec!['A', 'B'])
}

#[test]
fn expand_stream_3() {
    let system = LSystem::new("AA", vec![('A', vec!['B', 'B']), ('B', vec!['A'])], vec![]);
    let s = system.expand_stream(3);
    let v: Vec<char> = s.to_vec();
    assert_eq!(v, vec!['A', 'A', 'A', 'A'])
}

#[test]
fn lazy_and_eager_expansion_agree() {
    for (_, _, system) in lsystem::examples::all_examples() {
        for n in 0..6u32 {
            assert_eq!(system.expand(n), system.expand_stream(n).to_vec());
        }
    }
}

#[test]
fn lazy_stream_yields_one_symbol_per_pull() {
    let system = algae_like();
    let mut s = system.expand_stream(3);
    assert_eq!(s.next(), Some('A'));
    assert_eq!(s.next(), Some('B'));
    assert_eq!(s.next(), Some('B'));
    assert_eq!(s.next(), None);
    assert_eq!(s.next(), None);
}
