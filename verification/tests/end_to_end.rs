use c_compiler::compile;
use c_compiler::emit::Target;
use c_compiler::error::{CompileError, Expected};
use c_compiler::lex::{Token, TokenType};
use std::collections::HashMap;

/// A machine that runs the subset of x86-64 that the compiler writes.
struct Machine {
    registers: HashMap<&'static str, i32>,
    stack: HashMap<i32, i32>,
    compared: (i32, i32),
}

fn register_of(name: &str) -> Option<&'static str> {
    match name {
        "%eax" | "%al" => Some("a"),
        "%ecx" | "%cl" => Some("c"),
        "%edx" | "%dl" => Some("d"),
        "%r10d" | "%r10b" => Some("r10"),
        "%r11d" | "%r11b" => Some("r11"),
        _ => None,
    }
}

fn slot_of(operand: &str) -> i32 {
    let offset = operand.strip_suffix("(%rbp)").unwrap_or_else(|| panic!("operand {}", operand));
    offset.parse().unwrap()
}

impl Machine {
    fn new() -> Machine {
        Machine { registers: HashMap::new(), stack: HashMap::new(), compared: (0, 0) }
    }

    fn read(&self, operand: &str) -> i32 {
        if let Some(k) = operand.strip_prefix('$') {
            k.parse().unwrap()
        } else if let Some(r) = register_of(operand) {
            *self.registers.get(r).unwrap_or(&0)
        } else {
            *self.stack.get(&slot_of(operand)).unwrap_or(&0)
        }
    }

    fn write(&mut self, operand: &str, value: i32) {
        if let Some(r) = register_of(operand) {
            self.registers.insert(r, value);
        } else {
            assert!(!operand.starts_with('$'), "write to {}", operand);
            self.stack.insert(slot_of(operand), value);
        }
    }

    fn holds(&self, cc: &str) -> bool {
        let (dst, src) = self.compared;
        match cc {
            "e" => dst == src,
            "ne" => dst != src,
            "l" => dst < src,
            "le" => dst <= src,
            "g" => dst > src,
            "ge" => dst >= src,
            _ => panic!("condition {}", cc),
        }
    }

    fn run(&mut self, text: &str) -> i32 {
        let lines: Vec<&str> = text.lines().collect();
        let mut at = 0;
        let mut steps = 0;
        while at < lines.len() {
            steps += 1;
            assert!(steps < 100_000, "the program does not end");
            let line = lines[at];
            at += 1;
            if line.ends_with(':') || line.starts_with('.') {
                continue;
            }
            let (mnemonic, rest) = line.split_once(' ').unwrap_or((line, ""));
            let operands: Vec<&str> = if rest.is_empty() { vec![] } else { rest.split(", ").collect() };
            match mnemonic {
                "pushq" | "popq" | "movq" | "subq" => {}
                "ret" => return self.read("%eax"),
                "movl" => {
                    let v = self.read(operands[0]);
                    self.write(operands[1], v);
                }
                "negl" => {
                    let v = self.read(operands[0]);
                    self.write(operands[0], v.wrapping_neg());
                }
                "notl" => {
                    let v = self.read(operands[0]);
                    self.write(operands[0], !v);
                }
                "addl" | "subl" | "imull" | "andl" | "orl" | "xorl" => {
                    let src = self.read(operands[0]);
                    let dst = self.read(operands[1]);
                    if mnemonic == "imull" {
                        assert!(register_of(operands[1]).is_some(), "{}", line);
                    } else {
                        assert!(
                            register_of(operands[0]).is_some()
                                || register_of(operands[1]).is_some()
                                || operands[0].starts_with('$'),
                            "{}",
                            line
                        );
                    }
                    let v = match mnemonic {
                        "addl" => dst.wrapping_add(src),
                        "subl" => dst.wrapping_sub(src),
                        "imull" => dst.wrapping_mul(src),
                        "andl" => dst & src,
                        "orl" => dst | src,
                        _ => dst ^ src,
                    };
                    self.write(operands[1], v);
                }
                "sall" | "sarl" => {
                    assert!(operands[0] == "%cl" || operands[0].starts_with('$'), "{}", line);
                    let count = (self.read(operands[0]) & 31) as u32;
                    let dst = self.read(operands[1]);
                    let v = if mnemonic == "sall" { dst.wrapping_shl(count) } else { dst >> count };
                    self.write(operands[1], v);
                }
                "cdq" => {
                    let v = if self.read("%eax") < 0 { -1 } else { 0 };
                    self.write("%edx", v);
                }
                "idivl" => {
                    assert!(!operands[0].starts_with('$'), "{}", line);
                    let high = self.read("%edx") as i64;
                    let low = self.read("%eax") as u32 as i64;
                    let dividend = (high << 32) | low;
                    let divisor = self.read(operands[0]) as i64;
                    self.write("%eax", (dividend / divisor) as i32);
                    self.write("%edx", (dividend % divisor) as i32);
                }
                "cmpl" => {
                    assert!(!operands[1].starts_with('$'), "{}", line);
                    assert!(
                        register_of(operands[0]).is_some()
                            || register_of(operands[1]).is_some()
                            || operands[0].starts_with('$'),
                        "{}",
                        line
                    );
                    self.compared = (self.read(operands[1]), self.read(operands[0]));
                }
                "jmp" => at = lines.iter().position(|l| *l == format!("{}:", operands[0])).unwrap(),
                "movzbl" => {
                    let v = self.read(operands[0]) & 0xff;
                    self.write(operands[1], v);
                }
                _ => {
                    if let Some(cc) = mnemonic.strip_prefix("set") {
                        let old = self.read(operands[0]);
                        let bit = if self.holds(cc) { 1 } else { 0 };
                        self.write(operands[0], (old & !0xff) | bit);
                    } else if let Some(cc) = mnemonic.strip_prefix('j') {
                        if self.holds(cc) {
                            at = lines.iter().position(|l| *l == format!("{}:", operands[0])).unwrap();
                        }
                    } else {
                        panic!("instruction {}", line);
                    }
                }
            }
        }
        panic!("the program runs off its end");
    }
}

fn run(source: &str) -> i32 {
    let text = compile(source, Target::Darwin).unwrap();
    assert_eq!(Ok(text.replace("_main", "main")), compile(source, Target::SystemV));
    Machine::new().run(&text)
}

#[test]
fn returns_a_constant() {
    assert_eq!(run("int main(void){ return 2; }"), 2);
}

#[test]
fn multiplies_before_it_adds() {
    assert_eq!(run("int main(void){ return 1 + 2 * 3; }"), 7);
}

#[test]
fn negates_a_complement() {
    assert_eq!(run("int main(void){ return -(~5); }"), 6);
}

#[test]
fn computes_with_two_variables() {
    assert_eq!(run("int main(void){ int a = 3; int b = 4; return a * b + 1; }"), 13);
}

#[test]
fn updates_a_variable() {
    assert_eq!(run("int main(void){ int x = 5; x = x + 10; return x; }"), 15);
}

#[test]
fn both_comparisons_hold() {
    assert_eq!(run("int main(void){ return (1 < 2) && (3 == 3); }"), 1);
}

#[test]
fn divides() {
    assert_eq!(run("int main(void){ return 10 / 3; }"), 3);
}

#[test]
fn takes_the_remainder() {
    assert_eq!(run("int main(void){ return 10 % 3; }"), 1);
}

#[test]
fn shifts_and_ors() {
    assert_eq!(run("int main(void){ return (1 << 3) | 1; }"), 9);
}

#[test]
fn the_text_of_the_smallest_program() {
    assert_eq!(
        compile("int main(void){ return 2; }", Target::Darwin),
        Ok(".globl _main\n_main:\npushq %rbp\nmovq %rsp, %rbp\nsubq $4, %rsp\nmovl $2, %eax\nmovq %rbp, %rsp\npopq %rbp\nret\n"
            .to_string())
    );
}

#[test]
fn the_text_of_a_sum_of_variables() {
    assert_eq!(
        compile("int main(void){ int a = 1; return a + a; }", Target::SystemV),
        Ok(concat_lines(&[
            ".globl main",
            "main:",
            "pushq %rbp",
            "movq %rsp, %rbp",
            "subq $12, %rsp",
            "movl $1, -4(%rbp)",
            "movl -4(%rbp), %r10d",
            "movl %r10d, -8(%rbp)",
            "movl -4(%rbp), %r10d",
            "addl %r10d, -8(%rbp)",
            "movl -8(%rbp), %eax",
            "movq %rbp, %rsp",
            "popq %rbp",
            "ret",
        ]))
    );
}

fn concat_lines(lines: &[&str]) -> String {
    let mut text = String::new();
    for line in lines {
        text.push_str(line);
        text.push('\n');
    }
    text
}

#[test]
fn division_and_remainder_truncate_toward_zero() {
    assert_eq!(run("int main(void){ return -7 / 2; }"), -3);
    assert_eq!(run("int main(void){ return -7 % 2; }"), -1);
    assert_eq!(run("int main(void){ return 7 / -2; }"), -3);
    assert_eq!(run("int main(void){ int a = 20; int b = 6; return a / b * 10 + a % b; }"), 32);
}

#[test]
fn comparisons_give_zero_or_one() {
    assert_eq!(run("int main(void){ return 1 < 2; }"), 1);
    assert_eq!(run("int main(void){ return 2 < 1; }"), 0);
    assert_eq!(run("int main(void){ return 2 <= 2; }"), 1);
    assert_eq!(run("int main(void){ return 3 <= 2; }"), 0);
    assert_eq!(run("int main(void){ return 2 > 1; }"), 1);
    assert_eq!(run("int main(void){ return 1 > 2; }"), 0);
    assert_eq!(run("int main(void){ return 2 >= 3; }"), 0);
    assert_eq!(run("int main(void){ return -1 >= -1; }"), 1);
    assert_eq!(run("int main(void){ return 4 == 4; }"), 1);
    assert_eq!(run("int main(void){ return 4 != 4; }"), 0);
    assert_eq!(run("int main(void){ int a = -5; int b = 3; return (a < b) + (b > a) * 2; }"), 3);
}

#[test]
fn logical_not() {
    assert_eq!(run("int main(void){ return !0; }"), 1);
    assert_eq!(run("int main(void){ return !7; }"), 0);
    assert_eq!(run("int main(void){ int a = 0; return !a + !!5; }"), 2);
}

#[test]
fn bitwise_operators() {
    assert_eq!(run("int main(void){ return 12 & 10; }"), 8);
    assert_eq!(run("int main(void){ return 12 | 10; }"), 14);
    assert_eq!(run("int main(void){ return 12 ^ 10; }"), 6);
    assert_eq!(run("int main(void){ return ~0; }"), -1);
    assert_eq!(run("int main(void){ int a = 12; int b = 10; return (a & b) + (a | b) + (a ^ b); }"), 28);
}

#[test]
fn shifts_by_a_variable() {
    assert_eq!(run("int main(void){ int n = 4; return 3 << n; }"), 48);
    assert_eq!(run("int main(void){ int n = 2; int x = -16; return x >> n; }"), -4);
    assert_eq!(run("int main(void){ int n = 1; return 64 >> (n + 1); }"), 16);
    assert_eq!(run("int main(void){ int n = 1; return 64 >> n + 1; }"), 33);
}

#[test]
fn logical_and_does_not_run_its_right_side_after_a_zero() {
    assert_eq!(run("int main(void){ int a = 0; int b = 5; a && (b = 7); return b; }"), 5);
    assert_eq!(run("int main(void){ int a = 1; int b = 5; a && (b = 7); return b; }"), 7);
    assert_eq!(run("int main(void){ return 0 && 1 / 0; }"), 0);
}

#[test]
fn logical_or_does_not_run_its_right_side_after_a_nonzero() {
    assert_eq!(run("int main(void){ int a = 3; int b = 5; a || (b = 7); return b; }"), 5);
    assert_eq!(run("int main(void){ int a = 0; int b = 5; a || (b = 7); return b; }"), 7);
    assert_eq!(run("int main(void){ return 2 || 1 / 0; }"), 1);
}

#[test]
fn logical_operators_give_zero_or_one() {
    assert_eq!(run("int main(void){ return 5 && 9; }"), 1);
    assert_eq!(run("int main(void){ return 5 && 0; }"), 0);
    assert_eq!(run("int main(void){ return 0 || 0; }"), 0);
    assert_eq!(run("int main(void){ return 0 || 9; }"), 1);
    assert_eq!(run("int main(void){ return (0 || 2) && (3 || 0) && !(0 && 1); }"), 1);
}

#[test]
fn assignment_is_an_expression() {
    assert_eq!(run("int main(void){ int a; int b; a = b = 4; return a + b; }"), 8);
    assert_eq!(run("int main(void){ int a = 1; int b = (a = 5) + 1; return a * 10 + b; }"), 56);
    assert_eq!(run("int main(void){ int a; int b; int c = (a = 2) * (b = 3); return a + b + c; }"), 11);
    assert_eq!(run("int main(void){ int a; (a) = 9; return a; }"), 9);
}

#[test]
fn a_program_without_return_exits_with_zero() {
    assert_eq!(run("int main(void){ }"), 0);
    assert_eq!(run("int main(void){ int a = 5; a = a * 2; }"), 0);
}

#[test]
fn statements_behind_a_return_do_not_run() {
    assert_eq!(run("int main(void){ int a = 1; return a; a = 2; return a; }"), 1);
}

#[test]
fn arithmetic_wraps_at_32_bits() {
    assert_eq!(run("int main(void){ return 2147483647 + 1; }"), i32::MIN);
    assert_eq!(run("int main(void){ return -2147483647 - 2; }"), i32::MAX);
    assert_eq!(run("int main(void){ return 65536 * 65536; }"), 0);
}

#[test]
fn a_variable_named_like_a_temporary_keeps_its_value() {
    assert_eq!(run("int main(void){ int a; int tmp = 1; int b = 2 * 3 + tmp; return b; }"), 7);
    assert_eq!(run("int main(void){ int label = 2; int tmp = 3; return -tmp * label; }"), -6);
}

#[test]
fn many_variables_and_temporaries() {
    assert_eq!(
        run("int main(void){ int a = 1; int b = a + 1; int c = b * b + a; int d = c % 3 - b; \
             int e = (a < b) + (b < c) + (c < d); return a + b * 10 + c * 100 + d * 1000 + e; }"),
        1 + 20 + 500 + 0 + 2
    );
}

#[test]
fn comments_and_line_breaks_change_nothing() {
    assert_eq!(
        run("int main(void)\n{\n  // the answer\n  int a = 40; /* forty */\n  return a\n    + 2;\n}\n"),
        42
    );
}

#[test]
fn invalid_number_is_reported() {
    assert_eq!(
        compile("int main(void){ return 1foo; }", Target::Darwin),
        Err(CompileError::InvalidNumber { position: 24 })
    );
}

#[test]
fn redeclaration_is_reported() {
    assert_eq!(
        compile("int main(void){ int a; int a; return a; }", Target::Darwin),
        Err(CompileError::Redeclaration { name: "a".to_string() })
    );
}

#[test]
fn undeclared_variable_is_reported() {
    assert_eq!(
        compile("int main(void){ return b; }", Target::Darwin),
        Err(CompileError::UndeclaredVariable { name: "b".to_string() })
    );
}

#[test]
fn invalid_assignment_target_is_reported() {
    assert_eq!(
        compile("int main(void){ 1 = 2; return 0; }", Target::Darwin),
        Err(CompileError::InvalidAssignmentTarget)
    );
}

#[test]
fn invalid_character_is_reported() {
    assert_eq!(
        compile("int main(void){ return 1 @ 2; }", Target::Darwin),
        Err(CompileError::InvalidCharacter { character: '@', position: 25 })
    );
}

#[test]
fn parser_errors_are_reported() {
    assert_eq!(
        compile("int main(void){ return 1 }", Target::Darwin),
        Err(CompileError::UnexpectedToken {
            got: Token { token_type: TokenType::CloseBrace, value: "}".to_string() },
            expected: Expected::Token(TokenType::SEMICOLON),
        })
    );
    assert_eq!(
        compile("int main(void){ return 1;", Target::Darwin),
        Err(CompileError::UnexpectedEOF { expected: Expected::Token(TokenType::CloseBrace) })
    );
    assert_eq!(
        compile("int main(void){ return 1; } }", Target::Darwin),
        Err(CompileError::TrailingTokens {
            token: Token { token_type: TokenType::CloseBrace, value: "}".to_string() }
        })
    );
}

#[test]
fn the_error_of_the_earliest_stage_is_reported() {
    assert_eq!(
        compile("int main(void){ int a; int a; return b }  1x", Target::Darwin),
        Err(CompileError::InvalidNumber { position: 43 })
    );
    assert!(matches!(
        compile("int main(void){ int a; int a; return b }", Target::Darwin),
        Err(CompileError::UnexpectedToken { .. })
    ));
}

#[test]
fn the_same_source_gives_the_same_text() {
    let source = "int main(void){ int a = 2; return (a && 3) || (a = 4); }";
    assert_eq!(compile(source, Target::Darwin), compile(source, Target::Darwin));
}

/// A small generator of pseudo-random numbers.
struct Dice(u64);

impl Dice {
    fn roll(&mut self, sides: u64) -> u64 {
        self.0 = self.0.wrapping_mul(6364136223846793005).wrapping_add(1442695040888963407);
        (self.0 >> 33) % sides
    }
}

/// Writes a random expression over the variables `a`, `b` and `c` and
/// gives its text with the value that it has for the given values.
fn random_expression(dice: &mut Dice, depth: u32, vars: [i32; 3]) -> (String, i32) {
    if depth == 0 || dice.roll(4) == 0 {
        return match dice.roll(5) {
            0 => ("a".to_string(), vars[0]),
            1 => ("b".to_string(), vars[1]),
            2 => ("c".to_string(), vars[2]),
            _ => {
                let k = dice.roll(100) as i32;
                (k.to_string(), k)
            }
        };
    }
    if dice.roll(5) == 0 {
        let (text, v) = random_expression(dice, depth - 1, vars);
        return match dice.roll(3) {
            0 => (format!("-({})", text), v.wrapping_neg()),
            1 => (format!("~({})", text), !v),
            _ => (format!("!({})", text), (v == 0) as i32),
        };
    }
    let (left, l) = random_expression(dice, depth - 1, vars);
    let (right, r) = random_expression(dice, depth - 1, vars);
    let (op, v) = match dice.roll(18) {
        0 => ("+", l.wrapping_add(r)),
        1 => ("-", l.wrapping_sub(r)),
        2 => ("*", l.wrapping_mul(r)),
        3 => ("&", l & r),
        4 => ("|", l | r),
        5 => ("^", l ^ r),
        6 => ("==", (l == r) as i32),
        7 => ("!=", (l != r) as i32),
        8 => ("<", (l < r) as i32),
        9 => ("<=", (l <= r) as i32),
        10 => (">", (l > r) as i32),
        11 => (">=", (l >= r) as i32),
        12 => ("&&", (l != 0 && r != 0) as i32),
        13 => ("||", (l != 0 || r != 0) as i32),
        14 if r != 0 && !(l == i32::MIN && r == -1) => ("/", l / r),
        15 if r != 0 && !(l == i32::MIN && r == -1) => ("%", l % r),
        16 if (0..32).contains(&r) => ("<<", l.wrapping_shl(r as u32)),
        17 if (0..32).contains(&r) => (">>", l >> r),
        _ => ("+", l.wrapping_add(r)),
    };
    (format!("({}) {} ({})", left, op, right), v)
}

#[test]
fn random_expressions_have_the_value_that_the_language_gives_them() {
    let mut dice = Dice(2024);
    for round in 0..300 {
        let vars = [
            dice.roll(200) as i32 - 100,
            dice.roll(7) as i32 - 3,
            dice.roll(1 << 31) as i32,
        ];
        let (text, expected) = random_expression(&mut dice, 4, vars);
        let source = format!(
            "int main(void){{ int a = {}; int b = {}; int c = {}; return {}; }}",
            if vars[0] < 0 { format!("-{}", -(vars[0] as i64)) } else { vars[0].to_string() },
            if vars[1] < 0 { format!("-{}", -(vars[1] as i64)) } else { vars[1].to_string() },
            vars[2],
            text
        );
        assert_eq!(run(&source), expected, "round {}: {}", round, source);
    }
}

#[test]
fn random_statements_leave_the_variables_as_the_language_says() {
    let mut dice = Dice(7);
    for round in 0..100 {
        let mut vars = [1, 2, 3];
        let mut source = "int main(void){ int a = 1; int b = 2; int c = 3; ".to_string();
        for _ in 0..6 {
            let target = dice.roll(3) as usize;
            let (text, v) = random_expression(&mut dice, 3, vars);
            source.push_str(&format!("{} = {}; ", ["a", "b", "c"][target], text));
            vars[target] = v;
        }
        let (text, expected) = random_expression(&mut dice, 2, vars);
        source.push_str(&format!("return {}; }}", text));
        assert_eq!(run(&source), expected, "round {}: {}", round, source);
    }
}
