use robson::compiler::{Compiler, Sources};
use robson::data_struct::{IError, Stack, Type, TypedByte};
use robson::encoding::{check_buffer, decode_at, encode_command, Command, Param};
use robson::infra::Infra;
use robson::interpreter::Interpreter;
use robson::text;
use robson::utils;

struct TestInfra {
    stdin: String,
    stdout: String,
}

impl TestInfra {
    fn new(stdin: String) -> Self {
        TestInfra {
            stdin,
            stdout: String::new(),
        }
    }
}

impl Infra for TestInfra {
    fn read_line(&mut self) -> Result<String, IError> {
        let input = self.stdin.clone();
        let split: Vec<&str> = input.split('\n').collect();
        self.stdin = split[1..split.len()]
            .iter()
            .map(|a| format!("{}\n", a))
            .collect();
        Ok(split[0].to_owned())
    }
    fn print(&mut self, to_print: String) {
        self.stdout.push_str(&to_print);
    }
    fn println(&mut self, to_print: String) {
        self.stdout.push_str(&to_print);
        self.stdout.push('\n');
    }
    fn flush(&mut self) {}
    fn color_print(&mut self, _to_print: String, _color: u64) {}
    fn clone_self(&self) -> Self {
        TestInfra {
            stdin: self.stdin.clone(),
            stdout: String::new(),
        }
    }
    fn enable_raw_mode(&self) -> Result<(), IError> {
        Ok(())
    }
    fn disable_raw_mode(&self) -> Result<(), IError> {
        Ok(())
    }
    fn clear_purge(&mut self) -> Result<(), IError> {
        Ok(())
    }
    fn clear_all(&mut self) -> Result<(), IError> {
        Ok(())
    }
    fn poll(&self, _duration: u64) -> Result<u32, IError> {
        Ok(0)
    }
    fn hide_cursor(&mut self) -> Result<(), IError> {
        Ok(())
    }
    fn show_cursor(&mut self) -> Result<(), IError> {
        Ok(())
    }
    fn move_cursor(&mut self, _x: u32, _y: u32) -> Result<(), IError> {
        Ok(())
    }
    fn float_add(&self, a: u32, b: u32) -> u32 {
        (f32::from_bits(a) + f32::from_bits(b)).to_bits()
    }
    fn float_sub(&self, a: u32, b: u32) -> u32 {
        (f32::from_bits(a) - f32::from_bits(b)).to_bits()
    }
    fn float_mul(&self, a: u32, b: u32) -> u32 {
        (f32::from_bits(a) * f32::from_bits(b)).to_bits()
    }
    fn float_div(&self, a: u32, b: u32) -> u32 {
        (f32::from_bits(a) / f32::from_bits(b)).to_bits()
    }
    fn float_rem(&self, a: u32, b: u32) -> u32 {
        (f32::from_bits(a) % f32::from_bits(b)).to_bits()
    }
    fn float_approx_eq(&self, a: u32, b: u32, decimal_places: u8) -> bool {
        let factor = 10.0f32.powi(decimal_places as i32);
        let a = (f32::from_bits(a) * factor).trunc();
        let b = (f32::from_bits(b) * factor).trunc();
        a == b
    }
    fn float_to_string(&self, bits: u32) -> String {
        format!("{}", f32::from_bits(bits))
    }
    fn parse_float(&self, text: &str) -> Option<u32> {
        text.parse::<f32>().ok().map(|f| f.to_bits())
    }
}

fn sources_of(files: &[(&str, &str)]) -> Sources {
    let mut sources = Sources::new();
    for (path, body) in files {
        let lines: Vec<String> = body.lines().map(|l| l.to_string()).collect();
        sources.insert(path.to_string(), lines);
    }
    sources
}

fn compile_files(files: &[(&str, &str)], root: &str) -> Result<Vec<u8>, IError> {
    let mut compiler = Compiler::new(
        root.to_string(),
        sources_of(files),
        TestInfra::new(String::new()),
    )?;
    compiler.compile()
}

fn compile_one(body: &str) -> Vec<u8> {
    compile_files(&[("main.robson", body)], "main.robson").unwrap()
}

/// Runs a compiled buffer for at most `max_steps` instructions and
/// returns the stack values, the memory, and what was printed.
fn run_buffer(
    buffer: &[u8],
    stdin: &str,
    max_steps: usize,
) -> (Vec<TypedByte>, Vec<TypedByte>, String) {
    assert!(check_buffer(buffer));
    let mut interpreter = Interpreter::new(buffer, TestInfra::new(stdin.to_owned())).unwrap();
    let mut steps = 0;
    loop {
        if interpreter.step().unwrap() {
            break;
        }
        steps += 1;
        assert!(steps <= max_steps, "program ran too long");
    }
    (
        interpreter.stack.vec.clone(),
        interpreter.memory.clone(),
        interpreter.infra.stdout.clone(),
    )
}

fn unsigned(v: u32) -> TypedByte {
    TypedByte {
        value: v,
        typ: Type::Usigned,
    }
}

// ---- the toolchain end to end ----

#[test]
fn push_and_print() {
    let buffer = compile_one(
        "robson robson robson\n\
         comeu 65\n\
         robson robson robson robson robson robson robson\n",
    );
    assert_eq!(buffer.len() % 15, 0);
    let (stack, _memory, stdout) = run_buffer(&buffer, "", 100);
    assert_eq!(stdout, "A");
    assert!(stack.is_empty());
}

#[test]
fn jump() {
    // jumps over a push straight to the end, so nothing is pushed
    let buffer = compile_one(
        "robson robson robson robson robson robson robson robson robson\n\
         lambeu :end\n\
         robson robson robson\n\
         comeu 1\n\
         end:\n",
    );
    let (stack, _memory, _stdout) = run_buffer(&buffer, "", 100);
    assert!(stack.is_empty());
}

#[test]
fn memory() {
    // push 7, store it at address 3, read it back, print it
    let buffer = compile_one(
        "robson robson robson\n\
         comeu 7\n\
         robson robson robson robson robson robson robson robson robson robson\n\
         comeu 3\n\
         robson robson robson\n\
         fudeu 3\n\
         robson robson robson robson robson robson robson robson\n",
    );
    let (stack, memory, stdout) = run_buffer(&buffer, "", 100);
    assert_eq!(stdout, "7");
    assert!(stack.is_empty());
    assert_eq!(memory[3], unsigned(7));
}

#[test]
fn if_() {
    // 1 < 2, so the branch skips the push
    let buffer = compile_one(
        "robson robson\n\
         comeu 1\n\
         comeu 2\n\
         comeu 2\n\
         robson robson robson\n\
         comeu 9\n",
    );
    let (stack, _memory, _stdout) = run_buffer(&buffer, "", 100);
    assert!(stack.is_empty());
}

#[test]
fn input() {
    // reads one raw line into memory at address 0 with limit 20
    let buffer = compile_one(
        "robson robson robson robson robson robson\n\
         comeu 0\n\
         comeu 0\n\
         comeu 20\n",
    );
    let (_stack, memory, _stdout) = run_buffer(&buffer, "teste12321312", 100);
    assert_eq!(memory[0], unsigned('t' as u32));
    assert_eq!(memory[4], unsigned('e' as u32));
    assert_eq!(memory[13], unsigned(0));
}

#[test]
fn operations() {
    // 3 + 4 printed
    let buffer = compile_one(
        "robson\n\
         comeu 0\n\
         comeu 3\n\
         comeu 4\n\
         robson robson robson robson robson robson robson robson\n",
    );
    let (stack, _memory, stdout) = run_buffer(&buffer, "", 100);
    assert_eq!(stdout, "7");
    assert!(stack.is_empty());
}

#[test]
fn types() {
    // signed add, then float add, both printed
    let buffer = compile_one(
        "robson\n\
         comeu 0\n\
         comeu i3\n\
         comeu i4\n\
         robson robson robson robson robson robson robson robson\n\
         robson\n\
         comeu 0\n\
         comeu f1.5\n\
         comeu f2.5\n\
         robson robson robson robson robson robson robson robson\n",
    );
    let (stack, _memory, stdout) = run_buffer(&buffer, "", 100);
    assert_eq!(stdout, "74");
    assert!(stack.is_empty());
}

// ---- end-to-end scenarios ----

#[test]
fn scenario_push_abbreviation_print_number() {
    // the second parameter line is an implicit push
    let buffer = compile_one(
        "robson robson robson\n\
         comeu 7\n\
         comeu 8\n",
    );
    let (stack, _memory, _stdout) = run_buffer(&buffer, "", 100);
    assert_eq!(stack, vec![unsigned(7), unsigned(8)]);

    let buffer = compile_one(
        "robson robson robson\n\
         comeu 7\n\
         comeu 8\n\
         robson robson robson robson robson robson robson robson\n",
    );
    let (stack, _memory, stdout) = run_buffer(&buffer, "", 100);
    assert_eq!(stdout, "8");
    assert_eq!(stack, vec![unsigned(7)]);
}

#[test]
fn scenario_alias_jump_loops_forever() {
    let buffer = compile_one(
        "loop:\n\
         robson robson robson robson robson robson robson robson robson\n\
         lambeu :loop\n",
    );
    assert!(check_buffer(&buffer));
    assert_eq!(buffer.len(), 15);
    let mut interpreter = Interpreter::new(&buffer, TestInfra::new(String::new())).unwrap();
    for _ in 0..10 {
        let halted = interpreter.step().unwrap();
        assert!(!halted);
        assert_eq!(interpreter.index, 0);
    }
}

#[test]
fn scenario_typed_add_pushes_signed_seven() {
    let buffer = compile_one(
        "robson\n\
         comeu 0\n\
         comeu i3\n\
         comeu i4\n",
    );
    let (stack, _memory, _stdout) = run_buffer(&buffer, "", 100);
    assert_eq!(stack.len(), 1);
    assert_eq!(stack[0].typ, Type::Signed);
    assert_eq!(stack[0].value, 7);
    assert_eq!(stack[0].value.to_be_bytes(), [0, 0, 0, 7]);
}

#[test]
fn scenario_float_eq_jump_branches() {
    // approximately equal at four decimal places, so the push is skipped
    let buffer = compile_one(
        "robson robson robson robson\n\
         comeu f1.00001\n\
         comeu f1.00002\n\
         comeu 2\n\
         robson robson robson\n\
         comeu 5\n",
    );
    let (stack, _memory, _stdout) = run_buffer(&buffer, "", 100);
    assert!(stack.is_empty());
}

#[test]
fn scenario_include_offset() {
    // the alias is recorded before the included unit's two commands
    let a = "back:\n\
             robsons lib.robson\n\
             robson robson robson robson robson robson robson robson robson\n\
             lambeu :back\n";
    let b = "robson robson robson robson robson robson robson robson robson robson robson\n\
             robson robson robson robson robson robson robson robson robson robson robson\n";
    let buffer = compile_files(&[("a.robson", a), ("lib.robson", b)], "a.robson").unwrap();
    assert_eq!(buffer.len(), 45);
    let jump = decode_at(&buffer, 30);
    assert_eq!(jump.opcode, 9);
    assert_eq!(jump.param1.value, unsigned(0));
}

#[test]
fn compilation_is_idempotent() {
    let body = "robson robson robson\n\
                comeu 65\n\
                robson robson robson robson robson robson robson\n\
                loop:\n\
                robson robson robson robson robson robson robson robson robson robson robson\n";
    let first = compile_one(body);
    let second = compile_one(body);
    assert_eq!(first, second);
}

// ---- the encoding ----

#[test]
fn encode_decode_roundtrip() {
    let command = Command {
        opcode: 4,
        param1: Param {
            value: TypedByte {
                value: 0xDEAD_BEEF,
                typ: Type::Floating,
            },
            mode: 2,
            convert: true,
        },
        param2: Param {
            value: TypedByte {
                value: 7,
                typ: Type::Signed,
            },
            mode: 1,
            convert: false,
        },
        param3: Param {
            value: unsigned(0),
            mode: 3,
            convert: true,
        },
    };
    let mut buffer = Vec::new();
    encode_command(&command, &mut buffer);
    assert_eq!(buffer.len(), 15);
    assert!(check_buffer(&buffer));
    let decoded = decode_at(&buffer, 0);
    assert_eq!(decoded, command);
}

#[test]
fn kind_byte_packs_and_unpacks() {
    let byte = utils::create_kind_byte(2, 1, 3, 2);
    assert_eq!(byte, 2 * 64 + 16 + 3 * 4 + 2);
    let fields = utils::convert_kind_byte(byte);
    assert_eq!(fields, [2, 1, 3, 2]);
    assert_eq!(utils::create_two_bits([true, false]), 1);
    assert_eq!(utils::convert_two_bits(2), [false, true]);
}

#[test]
fn check_buffer_refuses_malformed_records() {
    assert!(check_buffer(&[]));
    assert!(!check_buffer(&[0u8; 14]));
    let mut record = [0u8; 15];
    record[0] = 17;
    assert!(!check_buffer(&record));
    record[0] = 16;
    assert!(check_buffer(&record));
    record[14] = 0b1100_0000;
    assert!(!check_buffer(&record));
}

// ---- compile errors ----

#[test]
fn duplicate_alias_is_refused() {
    let err = compile_files(
        &[("main.robson", "x:\nrobson robson robson robson robson robson robson\nx:\n")],
        "main.robson",
    )
    .unwrap_err();
    assert!(err.text().contains("duplicate alias"));
}

#[test]
fn unknown_alias_is_refused() {
    let err = compile_files(
        &[(
            "main.robson",
            "robson robson robson robson robson robson robson robson robson\nlambeu :nowhere\n",
        )],
        "main.robson",
    )
    .unwrap_err();
    assert!(err.text().contains("cant find nowhere"));
}

#[test]
fn invalid_opcode_token_is_refused() {
    let err = compile_files(&[("main.robson", "robson robsan\n")], "main.robson").unwrap_err();
    assert!(err.text().contains("invalid token for opcode"));
}

#[test]
fn missing_parameters_are_refused() {
    let err = compile_files(&[("main.robson", "robson robson robson\n")], "main.robson")
        .unwrap_err();
    assert!(err.text().contains("missing params"));
}

#[test]
fn oversized_opcode_is_refused() {
    let line = ["robson"; 17].join(" ");
    let err = compile_files(&[("main.robson", &line)], "main.robson").unwrap_err();
    assert!(err.text().contains("invalid opcode"));
}

#[test]
fn include_cycle_is_refused() {
    let a = "robsons b.robson\n";
    let b = "robsons a.robson\n";
    let err =
        compile_files(&[("a.robson", a), ("b.robson", b)], "a.robson").unwrap_err();
    assert!(err.text().contains("infinite compilation"));
}

#[test]
fn missing_include_is_refused() {
    let err = compile_files(&[("a.robson", "robsons b.robson\n")], "a.robson").unwrap_err();
    assert!(err.text().contains("No such file 'b.robson'"));
}

#[test]
fn numeric_literal_overflow_is_refused() {
    let err = compile_files(
        &[("main.robson", "robson robson robson\ncomeu 99999999999\n")],
        "main.robson",
    )
    .unwrap_err();
    assert!(err.text().contains("number too large"));
}

// ---- runtime behavior and errors ----

#[test]
fn division_by_zero_is_an_error() {
    let buffer = compile_one(
        "robson\n\
         comeu 3\n\
         comeu 8\n\
         comeu 0\n",
    );
    let mut interpreter = Interpreter::new(&buffer, TestInfra::new(String::new())).unwrap();
    let err = interpreter.step().unwrap_err();
    assert!(interpreter.infra.stdout.is_empty());
    assert!(err.text().contains("dividing by zero"));
}

#[test]
fn mismatched_tags_are_an_error() {
    let buffer = compile_one(
        "robson\n\
         comeu 0\n\
         comeu 3\n\
         comeu i4\n",
    );
    let mut interpreter = Interpreter::new(&buffer, TestInfra::new(String::new())).unwrap();
    let err = interpreter.step().unwrap_err();
    assert!(err.text().contains("incompatible types"));
}

#[test]
fn convert_flag_reinterprets_the_tag() {
    // an unsigned 3 plus a signed 4, the unsigned side reinterpreted
    let buffer = compile_one(
        "robson\n\
         comeu 0\n\
         comeu 3 robson\n\
         comeu i4\n",
    );
    let (stack, _memory, _stdout) = run_buffer(&buffer, "", 100);
    assert_eq!(stack.len(), 1);
    assert_eq!(stack[0].typ, Type::Signed);
    assert_eq!(stack[0].value, 7);
}

#[test]
fn stack_relative_payload_must_be_zero() {
    let buffer = compile_one(
        "robson robson robson\n\
         comeu 1\n\
         robson robson robson\n\
         chupou 5\n",
    );
    let mut interpreter = Interpreter::new(&buffer, TestInfra::new(String::new())).unwrap();
    assert!(!interpreter.step().unwrap());
    let err = interpreter.step().unwrap_err();
    assert!(err.text().contains("chupou is not 0"));
}

#[test]
fn unsigned_tag_is_forced_for_addresses() {
    // a signed top of stack cannot serve as a store address
    let buffer = compile_one(
        "robson robson robson\n\
         comeu i1\n\
         robson robson robson robson robson robson robson robson robson robson\n\
         chupou 0\n",
    );
    let mut interpreter = Interpreter::new(&buffer, TestInfra::new(String::new())).unwrap();
    assert!(!interpreter.step().unwrap());
    let err = interpreter.step().unwrap_err();
    assert!(err.text().contains("Invalid number type"));
}

#[test]
fn memory_grows_with_zeroed_cells() {
    // storing at address 5 creates addresses 0 through 5
    let buffer = compile_one(
        "robson robson robson\n\
         comeu 9\n\
         robson robson robson robson robson robson robson robson robson robson\n\
         comeu 5\n",
    );
    let (stack, memory, _stdout) = run_buffer(&buffer, "", 100);
    assert!(stack.is_empty());
    assert_eq!(memory.len(), 6);
    for i in 0..5 {
        assert_eq!(memory[i], unsigned(0));
    }
    assert_eq!(memory[5], unsigned(9));
}

#[test]
fn pop_on_empty_stack_is_a_no_op() {
    let buffer = compile_one(
        "robson robson robson robson robson robson robson robson robson robson robson\n",
    );
    let (stack, _memory, _stdout) = run_buffer(&buffer, "", 100);
    assert!(stack.is_empty());
}

#[test]
fn load_string_pushes_in_reverse() {
    // store 'H' at 0 and 'i' at 1, then load the string at 0 and print twice
    let buffer = compile_one(
        "robson robson robson\n\
         comeu 72\n\
         robson robson robson robson robson robson robson robson robson robson\n\
         comeu 0\n\
         robson robson robson\n\
         comeu 105\n\
         robson robson robson robson robson robson robson robson robson robson\n\
         comeu 1\n\
         robson robson robson robson robson robson robson robson robson robson robson robson\n\
         comeu 0\n\
         robson robson robson robson robson robson robson\n\
         robson robson robson robson robson robson robson\n",
    );
    let (stack, _memory, stdout) = run_buffer(&buffer, "", 100);
    assert_eq!(stdout, "Hi");
    assert!(stack.is_empty());
}

#[test]
fn input_parses_typed_values() {
    // kind 1 parses the line as an unsigned number into the address
    let buffer = compile_one(
        "robson robson robson robson robson robson\n\
         comeu 2\n\
         comeu 1\n\
         comeu 0\n",
    );
    let (_stack, memory, _stdout) = run_buffer(&buffer, "12", 100);
    assert_eq!(memory[2], unsigned(12));
}

#[test]
fn random_pushes_a_unit_float() {
    let buffer = compile_one(
        "robson robson robson robson robson robson robson robson robson robson robson robson robson robson robson robson\n",
    );
    let (stack, _memory, _stdout) = run_buffer(&buffer, "", 100);
    assert_eq!(stack.len(), 1);
    assert_eq!(stack[0].typ, Type::Floating);
    let value = f32::from_bits(stack[0].value);
    assert!(0.0 <= value && value < 1.0);
}

#[test]
fn timer_comparison_pushes_a_code() {
    // start the timer, set a zero target from two pushed words, compare
    let buffer = compile_one(
        "robson robson robson robson robson robson robson robson robson robson robson robson robson\n\
         comeu 0\n\
         robson robson robson\n\
         comeu 0\n\
         comeu 0\n\
         robson robson robson robson robson robson robson robson robson robson robson robson robson\n\
         comeu 1\n\
         robson robson robson robson robson robson robson robson robson robson robson robson robson\n\
         comeu 2\n",
    );
    let (stack, _memory, _stdout) = run_buffer(&buffer, "", 100);
    // both duration words are consumed, leaving only the comparison code
    assert_eq!(stack.len(), 1);
    let code = stack[0];
    assert_eq!(code.typ, Type::Usigned);
    assert!(code.value == 1 || code.value == 2);
}

#[test]
fn terminal_poll_pushes_the_key_code() {
    // poll consumes two stack words and pushes the key received (0 here)
    let buffer = compile_one(
        "robson robson robson\n\
         comeu 0\n\
         comeu 0\n\
         robson robson robson robson robson robson robson robson robson robson robson robson robson robson robson\n\
         comeu 2\n",
    );
    let (stack, _memory, _stdout) = run_buffer(&buffer, "", 100);
    assert_eq!(stack, vec![unsigned(0)]);
}

// ---- the verified text utilities ----

#[test]
fn number_formatting_is_exact() {
    assert_eq!(text::u32_to_string(0), "0");
    assert_eq!(text::u32_to_string(4294967295), "4294967295");
    assert_eq!(text::i32_to_string(-2147483648), "-2147483648");
    assert_eq!(text::i32_to_string(7), "7");
}

#[test]
fn number_parsing_matches_the_grammar() {
    assert_eq!(text::parse_u32("123").unwrap(), 123);
    assert_eq!(text::parse_u32("+123").unwrap(), 123);
    assert!(text::parse_u32("").is_err());
    assert!(text::parse_u32("12a").is_err());
    assert!(text::parse_u32("4294967296").is_err());
    assert_eq!(text::parse_i32("-42").unwrap(), -42);
    assert_eq!(text::parse_i32("-2147483648").unwrap(), -2147483648);
    assert!(text::parse_i32("-2147483649").is_err());
    assert!(text::parse_i32("+").is_err());
}

#[test]
fn text_helpers_behave() {
    assert_eq!(text::trim("  a b \t"), "a b");
    assert_eq!(text::remove_char("f1f.5", 'f'), "1.5");
    assert!(text::contains_str("xxrobsonyy", "robson"));
    assert!(!text::contains_str("robso", "robson"));
    let pieces = text::split_char("a  b", ' ');
    assert_eq!(pieces, vec!["a".to_string(), "".to_string(), "b".to_string()]);
}

#[test]
fn wrapping_arithmetic_wraps() {
    assert_eq!(utils::u32_add(0xFFFF_FFFF, 2), 1);
    assert_eq!(utils::u32_sub(0, 1), 0xFFFF_FFFF);
    assert_eq!(utils::i32_add(i32::MAX, 1), i32::MIN);
    assert_eq!(utils::i32_div(i32::MIN, -1), i32::MIN);
    assert_eq!(utils::i32_mod(-7, 3), -1);
    assert_eq!(utils::i32_div(-7, 3), -2);
}

#[test]
fn stack_reports_its_top() {
    let mut stack = Stack::new();
    assert!(stack.top().is_err());
    stack.push(unsigned(4));
    stack.push(unsigned(9));
    assert_eq!(stack.top().unwrap(), unsigned(9));
    assert_eq!(stack.pop(), Some(unsigned(9)));
    assert_eq!(stack.len(), 1);
}

#[test]
fn force_u32_refuses_other_tags() {
    let byte = TypedByte::signed(-1);
    assert!(byte.force_u32(3).is_err());
    assert_eq!(unsigned(9).force_u32(0).unwrap(), 9);
}

#[test]
fn comments_and_blank_lines_are_skipped() {
    let buffer = compile_one(
        "; a comment-only line\n\
         \n\
         robson robson robson ; push\n\
         comeu 65 ; the letter\n\
         robson robson robson robson robson robson robson ; print it\n",
    );
    let (_stack, _memory, stdout) = run_buffer(&buffer, "", 100);
    assert_eq!(stdout, "A");
}

#[test]
fn empty_source_compiles_to_an_empty_buffer() {
    let buffer = compile_one("; nothing here\n\n");
    assert!(buffer.is_empty());
    let (stack, memory, stdout) = run_buffer(&buffer, "", 10);
    assert!(stack.is_empty());
    assert!(memory.is_empty());
    assert!(stdout.is_empty());
}

#[test]
fn diamond_includes_use_the_size_cache() {
    // both branches include the same leaf; aliases after the includes
    // land on the right global ordinals
    let root = "robsons left.robson\n\
                robsons right.robson\n\
                here:\n\
                robson robson robson robson robson robson robson robson robson\n\
                lambeu :here\n";
    let left = "robsons leaf.robson\n";
    let right = "robsons leaf.robson\n";
    let leaf = "robson robson robson robson robson robson robson robson robson robson robson\n";
    let buffer = compile_files(
        &[
            ("root.robson", root),
            ("left.robson", left),
            ("right.robson", right),
            ("leaf.robson", leaf),
        ],
        "root.robson",
    )
    .unwrap();
    // two leaf copies and the jump
    assert_eq!(buffer.len(), 45);
    let jump = decode_at(&buffer, 30);
    assert_eq!(jump.opcode, 9);
    assert_eq!(jump.param1.value, unsigned(2));
}

#[test]
fn alias_table_survives_large_indices() {
    // the alias lands after 16 commands; the reference carries it exactly
    let mut body = String::new();
    for _ in 0..16 {
        body.push_str("robson robson robson robson robson robson robson robson robson robson robson\n");
    }
    body.push_str("target:\n");
    body.push_str("robson robson robson robson robson robson robson robson robson\n");
    body.push_str("lambeu :target\n");
    let buffer = compile_one(&body);
    let jump = decode_at(&buffer, 16 * 15);
    assert_eq!(jump.param1.value, unsigned(16));
}

#[test]
fn first_pass_builds_the_alias_table() {
    let body = "start:\n\
                robson robson robson\n\
                comeu 1\n\
                after:\n\
                robson robson robson robson robson robson robson\n";
    let mut compiler = Compiler::new(
        "main.robson".to_string(),
        sources_of(&[("main.robson", body)]),
        TestInfra::new(String::new()),
    )
    .unwrap();
    assert!(compiler.start_command_alias().is_none());
    assert_eq!(compiler.names.len(), 2);
    assert_eq!(compiler.names[0], ("start".to_string(), 0));
    assert_eq!(compiler.names[1], ("after".to_string(), 1));
}

#[test]
fn first_pass_honors_the_offset() {
    let body = "here:\nrobson robson robson robson robson robson robson\n";
    let mut compiler = Compiler::new(
        "main.robson".to_string(),
        sources_of(&[("main.robson", body)]),
        TestInfra::new(String::new()),
    )
    .unwrap();
    compiler.set_offset(5);
    assert!(compiler.start_command_alias().is_none());
    assert_eq!(compiler.names[0], ("here".to_string(), 5));
}

#[test]
fn cached_include_sizes_are_reused() {
    let sources = sources_of(&[
        ("main.robson", "robsons leaf.robson\n"),
        ("leaf.robson", "robson robson robson robson robson robson robson\n"),
    ]);
    let mut compiler = Compiler::new(
        "main.robson".to_string(),
        sources,
        TestInfra::new(String::new()),
    )
    .unwrap();
    assert_eq!(compiler.get_cached_robsons_size("leaf.robson", 0).unwrap(), 1);
    // the second call is answered from the cache
    assert_eq!(compiler.get_cached_robsons_size("leaf.robson", 3).unwrap(), 1);
}

#[test]
fn compiled_stack_detects_revisits() {
    let sources = sources_of(&[("main.robson", "")]);
    let mut compiler = Compiler::new(
        "main.robson".to_string(),
        sources,
        TestInfra::new(String::new()),
    )
    .unwrap();
    let stack = vec!["a.robson".to_string(), "b.robson".to_string()];
    assert!(compiler.compiled_stack(stack.clone(), "c.robson").is_ok());
    let err = compiler.compiled_stack(stack, "b.robson").unwrap_err();
    assert!(err.text().contains("infinite compilation"));
}

#[test]
fn remove_comments_strips_and_trims() {
    let cleaned: &str = Compiler::<TestInfra>::remove_comments("  robson robson ; two\n");
    assert_eq!(cleaned, "robson robson");
    let cleaned: &str = Compiler::<TestInfra>::remove_comments(";only a comment");
    assert_eq!(cleaned, "");
}

#[test]
fn get_kind_value_resolves_each_mode() {
    let mut compiler = Compiler::new(
        "main.robson".to_string(),
        sources_of(&[("main.robson", "spot:\nrobson robson robson robson robson robson robson\n")]),
        TestInfra::new(String::new()),
    )
    .unwrap();
    assert!(compiler.start_command_alias().is_none());
    assert_eq!(
        compiler.get_kind_value("comeu 65").unwrap(),
        (unsigned(65), 0, 0, false)
    );
    assert_eq!(
        compiler.get_kind_value("comeu i-2").unwrap(),
        (TypedByte::signed(-2), 0, 1, false)
    );
    assert_eq!(
        compiler.get_kind_value("comeu f1.5").unwrap(),
        (
            TypedByte {
                value: 1.5f32.to_bits(),
                typ: Type::Floating
            },
            0,
            2,
            false
        )
    );
    assert_eq!(
        compiler.get_kind_value("chupou 0").unwrap(),
        (unsigned(0), 1, 0, false)
    );
    assert_eq!(
        compiler.get_kind_value("fudeu 3 robson").unwrap(),
        (unsigned(3), 2, 0, true)
    );
    assert_eq!(
        compiler.get_kind_value("penetrou 4").unwrap(),
        (unsigned(4), 3, 0, false)
    );
    assert_eq!(
        compiler.get_kind_value("lambeu :spot").unwrap(),
        (unsigned(0), 0, 0, false)
    );
    assert_eq!(compiler.get_kind_value("").unwrap(), (unsigned(0), 0, 0, false));
    assert!(compiler.get_kind_value("lambeu spot").is_err());
    assert!(compiler.get_kind_value("comeu").is_err());
    assert!(compiler.get_kind_value("comeu 1 bogus").is_err());
    assert!(compiler.get_kind_value("arbitrary 1").is_err());
}

#[test]
fn push_command_emits_one_record() {
    let mut compiler = Compiler::new(
        "main.robson".to_string(),
        sources_of(&[("main.robson", "")]),
        TestInfra::new(String::new()),
    )
    .unwrap();
    compiler
        .push_command(
            3,
            ["comeu 9".to_string(), String::new(), String::new()],
        )
        .unwrap();
    assert_eq!(compiler.buffer.len(), 15);
    assert_eq!(compiler.current_command, 1);
    let decoded = decode_at(&compiler.buffer, 0);
    assert_eq!(decoded.opcode, 3);
    assert_eq!(decoded.param1.value, unsigned(9));
    assert_eq!(decoded.param1.mode, 0);
}

#[test]
fn interpreter_resolution_modes() {
    let buffer = [0u8; 15];
    let mut interpreter = Interpreter::new(&buffer, TestInfra::new(String::new())).unwrap();
    // immediate hands the payload back
    let byte = unsigned(9);
    assert_eq!(interpreter.convert(byte, 0).unwrap(), byte);
    // direct memory grows and reads a zeroed cell
    assert_eq!(interpreter.convert(unsigned(4), 2).unwrap(), unsigned(0));
    assert!(interpreter.memory.len() == 5);
    // stack relative pops the top
    interpreter.stack.push(unsigned(7));
    assert_eq!(interpreter.convert(unsigned(0), 1).unwrap(), unsigned(7));
    assert!(interpreter.stack.vec.is_empty());
    // indirect memory follows the cell's payload
    interpreter.memory[0] = unsigned(4);
    interpreter.memory[4] = unsigned(11);
    assert_eq!(interpreter.convert(unsigned(0), 3).unwrap(), unsigned(11));
    // growing is explicit too
    interpreter.validate_until(9);
    assert_eq!(interpreter.memory.len(), 10);
    assert_eq!(interpreter.memory[9], unsigned(0));
}

#[test]
fn execute_command_dispatches() {
    let buffer = [0u8; 15];
    let mut interpreter = Interpreter::new(&buffer, TestInfra::new(String::new())).unwrap();
    let immediate = |v: u32| Param {
        value: unsigned(v),
        mode: 0,
        convert: false,
    };
    let blank = immediate(0);
    interpreter
        .execute_command(3, immediate(6), blank, blank)
        .unwrap();
    assert_eq!(interpreter.stack.vec, vec![unsigned(6)]);
    interpreter.execute_command(11, blank, blank, blank).unwrap();
    assert!(interpreter.stack.vec.is_empty());
}

#[test]
fn jump_past_the_end_halts_at_the_target() {
    // a jump to command 5 in a one-command program: the counter lands on
    // byte 75, past the buffer, and execution halts there
    let buffer = compile_one(
        "robson robson robson robson robson robson robson robson robson\n\
         comeu 5\n",
    );
    assert_eq!(buffer.len(), 15);
    let mut interpreter = Interpreter::new(&buffer, TestInfra::new(String::new())).unwrap();
    let halted = interpreter.step().unwrap();
    assert!(halted);
    assert_eq!(interpreter.index, 75);
}

#[test]
fn timer_set_duration_consumes_two_slots() {
    // set-duration pops both words of the target
    let buffer = compile_one(
        "robson robson robson\n\
         comeu 0\n\
         comeu 1\n\
         robson robson robson robson robson robson robson robson robson robson robson robson robson\n\
         comeu 1\n",
    );
    let (stack, _memory, _stdout) = run_buffer(&buffer, "", 100);
    assert!(stack.is_empty());
}
