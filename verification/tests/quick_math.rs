use fast_win_launcher::calc::{parse, trim_decimals, Op};

fn num(s: &str) -> Op {
    Op::Num(s.to_owned())
}

#[test]
fn product() {
    assert_eq!(parse("12*8"), Some(vec![num("12"), num("8"), Op::Mul]));
}

#[test]
fn all_operators() {
    assert_eq!(parse("1+2"), Some(vec![num("1"), num("2"), Op::Add]));
    assert_eq!(parse("1-2"), Some(vec![num("1"), num("2"), Op::Sub]));
    assert_eq!(parse("1/2"), Some(vec![num("1"), num("2"), Op::Div]));
    assert_eq!(parse("1%2"), Some(vec![num("1"), num("2"), Op::Rem]));
}

#[test]
fn operators_group_to_the_left() {
    assert_eq!(
        parse("1-2-3"),
        Some(vec![num("1"), num("2"), Op::Sub, num("3"), Op::Sub])
    );
    assert_eq!(
        parse("8/4/2"),
        Some(vec![num("8"), num("4"), Op::Div, num("2"), Op::Div])
    );
}

#[test]
fn products_bind_tighter() {
    assert_eq!(
        parse("1+2*3"),
        Some(vec![num("1"), num("2"), num("3"), Op::Mul, Op::Add])
    );
    assert_eq!(
        parse("(1+2)*3"),
        Some(vec![num("1"), num("2"), Op::Add, num("3"), Op::Mul])
    );
}

#[test]
fn signs() {
    assert_eq!(parse("-3"), Some(vec![num("3"), Op::Neg]));
    assert_eq!(parse("--3"), Some(vec![num("3"), Op::Neg, Op::Neg]));
    assert_eq!(parse("+5"), Some(vec![num("5")]));
    assert_eq!(parse("2*-3"), Some(vec![num("2"), num("3"), Op::Neg, Op::Mul]));
}

#[test]
fn white_space_is_ignored() {
    assert_eq!(parse(" 2 + 2 "), parse("2+2"));
    assert_eq!(parse("1 2\u{a0}+3"), Some(vec![num("12"), num("3"), Op::Add]));
}

#[test]
fn decimals() {
    assert_eq!(parse("5.+.5"), Some(vec![num("5."), num(".5"), Op::Add]));
    assert_eq!(parse("1.2.3+1"), None);
    assert_eq!(parse(".+1"), None);
}

#[test]
fn bare_numbers_and_words_are_not_math() {
    assert_eq!(parse("5"), None);
    assert_eq!(parse(""), None);
    assert_eq!(parse("   "), None);
    assert_eq!(parse("(5)"), None);
    assert_eq!(parse("notepad"), None);
    assert_eq!(parse("notepad++"), None);
}

#[test]
fn incomplete_expressions_are_not_math() {
    for s in ["1+", "*2", "(1+2", "1+2)", "()+1", "1(2)+3", "-", "1+*2", "2x+1"] {
        assert_eq!(parse(s), None, "{s}");
    }
}

/// Runs a program on whole numbers.
fn run(program: &[Op]) -> Option<i64> {
    let mut stack: Vec<i64> = Vec::new();
    for op in program {
        match op {
            Op::Num(s) => stack.push(s.parse().unwrap()),
            Op::Neg => {
                let x = stack.pop().unwrap();
                stack.push(-x);
            }
            _ => {
                let r = stack.pop().unwrap();
                let l = stack.pop().unwrap();
                stack.push(match op {
                    Op::Add => l + r,
                    Op::Sub => l - r,
                    Op::Mul => l * r,
                    Op::Div => l.checked_div(r)?,
                    _ => l.checked_rem(r)?,
                });
            }
        }
    }
    assert_eq!(stack.len(), 1);
    stack.pop()
}

#[test]
fn programs_compute() {
    assert_eq!(run(&parse("12*8").unwrap()), Some(96));
    assert_eq!(run(&parse("2+3*4-5").unwrap()), Some(9));
    assert_eq!(run(&parse("-(2+3)*4").unwrap()), Some(-20));
    assert_eq!(run(&parse("100/5%7").unwrap()), Some(6));
    assert_eq!(run(&parse("1/(2-2)").unwrap()), None);
}

#[test]
fn white_space_has_no_influence_on_the_program() {
    let input = "\t( 1\u{3000}+ 2 ) * 3 4 ";
    let stripped: String = input.chars().filter(|c| !c.is_whitespace()).collect();
    assert!(parse(input).is_some());
    assert_eq!(parse(input), parse(&stripped));
}

#[test]
fn bracketed_operands_are_computed() {
    let (a, b) = ("1 + 2*3", "5 - 9");
    assert_eq!(run(&parse(&format!("({a})")).unwrap()), Some(7));
    for (op, expected) in [('+', 3), ('-', 11), ('*', -28), ('/', -1), ('%', 3)] {
        let program = parse(&format!("({a}){op}({b})")).unwrap();
        assert_eq!(run(&program), Some(expected), "{op}");
    }
    assert_eq!(run(&parse(&format!("({a})/(1-1)")).unwrap()), None);
    assert_eq!(run(&parse(&format!("({a})%(1-1)")).unwrap()), None);
}

#[test]
fn decimals_are_trimmed() {
    assert_eq!(trim_decimals("2.500000"), "2.5");
    assert_eq!(trim_decimals("0.333333"), "0.333333");
    assert_eq!(trim_decimals("1000000000000000.000000"), "1000000000000000");
    assert_eq!(trim_decimals("-0.100000"), "-0.1");
    assert_eq!(trim_decimals("1.."), "1");
    assert_eq!(trim_decimals(""), "");
}
