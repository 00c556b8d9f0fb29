use stacklang::array::{Prim, A};
use stacklang::dict::Dict;
use stacklang::errors::ErrorType;
use stacklang::eval::run_line;

struct Session {
    stack: Vec<A>,
    words: Dict,
    out: Vec<A>,
}

impl Session {
    fn new() -> Session {
        Session { stack: Vec::new(), words: Dict::new(), out: Vec::new() }
    }

    fn run(&mut self, line: &str) -> Result<(), ErrorType> {
        run_line(line, &mut self.stack, &mut self.words, &mut self.out)
    }

    fn stack_nums(&self) -> Vec<Vec<i64>> {
        self.stack
            .iter()
            .map(|a| {
                a.d.iter()
                    .map(|p| match p {
                        Prim::Num(x) => *x,
                        Prim::Char(_) => panic!("expected a numeric element"),
                    })
                    .collect()
            })
            .collect()
    }
}

fn nums(xs: &[i64]) -> Vec<Prim> {
    xs.iter().map(|x| Prim::Num(*x)).collect()
}

fn chars(s: &str) -> Vec<Prim> {
    s.chars().map(Prim::Char).collect()
}

#[test]
fn word_definition_round_trip() {
    let mut s = Session::new();
    s.run(": sq dup * ;").unwrap();
    s.run("5 sq").unwrap();
    assert_eq!(s.stack.last().unwrap().d, nums(&[25]));
}

#[test]
fn conditional_skip_prints_only_the_branch_after_the_marker() {
    let mut s = Session::new();
    s.run("0 ? 1 _ -> 2 _").unwrap();
    assert_eq!(s.out.len(), 1);
    assert_eq!(s.out[0].d, nums(&[2]));
}

#[test]
fn conditional_true_runs_both_sides_of_the_marker() {
    let mut s = Session::new();
    s.run("1 ? 1 _ -> 2 _").unwrap();
    assert_eq!(s.out.len(), 2);
    assert_eq!(s.out[0].d, nums(&[1]));
    assert_eq!(s.out[1].d, nums(&[2]));
}

#[test]
fn concat_type_mismatch_fails_with_both_operands_consumed() {
    let mut s = Session::new();
    assert_eq!(s.run("1 \"a\" ,"), Err(ErrorType::Eval));
    assert!(s.stack.is_empty());
}

#[test]
fn parse_failure_leaves_words_and_stack_untouched() {
    let mut s = Session::new();
    s.run(": sq dup * ;").unwrap();
    s.run("7").unwrap();
    assert_eq!(s.run("[ 1 2"), Err(ErrorType::Parse));
    assert_eq!(s.stack_nums(), vec![vec![7]]);
    s.run("sq").unwrap();
    assert_eq!(s.stack_nums(), vec![vec![49]]);
}

#[test]
fn scalar_broadcast_adds_elementwise() {
    let mut s = Session::new();
    s.run("[ 1 2 3 ] 1 +").unwrap();
    assert_eq!(s.stack_nums(), vec![vec![2, 3, 4]]);
}

#[test]
fn scalar_on_the_left_keeps_its_own_length() {
    let mut s = Session::new();
    s.run("1 [ 1 2 ] +").unwrap();
    assert_eq!(s.stack_nums(), vec![vec![2]]);
}

#[test]
fn negative_numbers_parse_inside_arrays() {
    let mut s = Session::new();
    s.run("[ -3 4 ] 1 +").unwrap();
    assert_eq!(s.stack_nums(), vec![vec![-2, 5]]);
}

#[test]
fn arithmetic_formulas() {
    let mut s = Session::new();
    s.run("7 2 -").unwrap();
    assert_eq!(s.stack_nums(), vec![vec![5]]);
    s.run("clr [ 2 3 ] [ 4 5 ] *").unwrap();
    assert_eq!(s.stack_nums(), vec![vec![8, 15]]);
    s.run("clr 7 2 /").unwrap();
    assert_eq!(s.stack_nums(), vec![vec![3]]);
    s.run("clr 7 0 2 - /").unwrap();
    assert_eq!(s.stack_nums(), vec![vec![-3]]);
}

#[test]
fn division_by_zero_is_an_eval_error() {
    let mut s = Session::new();
    assert_eq!(s.run("1 0 /"), Err(ErrorType::Eval));
    assert!(s.stack.is_empty());
}

#[test]
fn arithmetic_on_characters_is_an_eval_error() {
    let mut s = Session::new();
    assert_eq!(s.run("\"a\" \"b\" +"), Err(ErrorType::Eval));
}

#[test]
fn equality_is_deep() {
    let mut s = Session::new();
    s.run("2 2 =").unwrap();
    assert_eq!(s.stack_nums(), vec![vec![1]]);
    s.run("clr [ 1 2 ] [ 1 2 ] eql").unwrap();
    assert_eq!(s.stack_nums(), vec![vec![1]]);
    s.run("clr [ 1 2 ] [ 1 3 ] =").unwrap();
    assert_eq!(s.stack_nums(), vec![vec![0]]);
    s.run("clr 1 \"a\" =").unwrap();
    assert_eq!(s.stack_nums(), vec![vec![0]]);
}

#[test]
fn truthiness_of_and_or() {
    let mut s = Session::new();
    s.run("1 0 ^").unwrap();
    assert_eq!(s.stack_nums(), vec![vec![0]]);
    s.run("clr 1 0 v").unwrap();
    assert_eq!(s.stack_nums(), vec![vec![1]]);
    s.run("clr 2 3 and").unwrap();
    assert_eq!(s.stack_nums(), vec![vec![1]]);
    s.run("clr 0 0 or").unwrap();
    assert_eq!(s.stack_nums(), vec![vec![0]]);
}

#[test]
fn concat_joins_matching_variants() {
    let mut s = Session::new();
    s.run("[ 1 2 ] [ 3 ] cat").unwrap();
    assert_eq!(s.stack_nums(), vec![vec![1, 2, 3]]);
    s.run("clr \"ab\" \"c\" ,").unwrap();
    assert_eq!(s.stack[0].d, chars("abc"));
}

#[test]
fn len_pushes_the_count_and_keeps_the_value() {
    let mut s = Session::new();
    s.run("\"abc\" len").unwrap();
    assert_eq!(s.stack.len(), 2);
    assert_eq!(s.stack[0].d, chars("abc"));
    assert_eq!(s.stack[1].d, nums(&[3]));
}

#[test]
fn len_on_empty_stack_is_a_no_op() {
    let mut s = Session::new();
    s.run("len").unwrap();
    assert!(s.stack.is_empty());
}

#[test]
fn transmute_splits_a_value_into_elements() {
    let mut s = Session::new();
    s.run("[ 1 2 ] trm").unwrap();
    assert_eq!(s.stack_nums(), vec![vec![1], vec![2]]);
}

#[test]
fn stack_permutations() {
    let mut s = Session::new();
    s.run("1 2 dup").unwrap();
    assert_eq!(s.stack_nums(), vec![vec![1], vec![2], vec![2]]);
    s.run("clr 1 2 swp").unwrap();
    assert_eq!(s.stack_nums(), vec![vec![2], vec![1]]);
    s.run("clr 1 2 3 rot").unwrap();
    assert_eq!(s.stack_nums(), vec![vec![2], vec![3], vec![1]]);
    s.run("clr 1 2 <>").unwrap();
    assert_eq!(s.stack_nums(), vec![vec![1], vec![2], vec![2]]);
    s.run("clr 1 2 ><").unwrap();
    assert_eq!(s.stack_nums(), vec![vec![2], vec![1]]);
}

#[test]
fn clear_always_empties_the_stack() {
    let mut s = Session::new();
    s.run("1 2 3 clr").unwrap();
    assert!(s.stack.is_empty());
    s.run("clr").unwrap();
    assert!(s.stack.is_empty());
}

#[test]
fn clear_but_one_keeps_only_the_top() {
    let mut s = Session::new();
    s.run("1 2 3 clr1").unwrap();
    assert_eq!(s.stack_nums(), vec![vec![3]]);
    s.run("clr clr1").unwrap();
    assert!(s.stack.is_empty());
}

#[test]
fn pop_discards_the_top() {
    let mut s = Session::new();
    s.run("1 2 <<").unwrap();
    assert_eq!(s.stack_nums(), vec![vec![1]]);
    s.run("pop").unwrap();
    assert!(s.stack.is_empty());
    assert_eq!(s.run("pop"), Err(ErrorType::Eval));
}

#[test]
fn stack_underflow_is_an_eval_error() {
    let mut s = Session::new();
    assert_eq!(s.run("+"), Err(ErrorType::Eval));
    assert_eq!(s.run("1 +"), Err(ErrorType::Eval));
    assert!(s.stack.is_empty());
}

#[test]
fn do_repeats_the_next_instruction() {
    let mut s = Session::new();
    s.run("1 2 do dup").unwrap();
    assert_eq!(s.stack_nums(), vec![vec![1], vec![1], vec![1]]);
}

#[test]
fn do_with_zero_count_skips_the_next_instruction() {
    let mut s = Session::new();
    s.run("5 0 do dup").unwrap();
    assert_eq!(s.stack_nums(), vec![vec![5]]);
}

#[test]
fn do_without_a_next_instruction_is_an_eval_error() {
    let mut s = Session::new();
    assert_eq!(s.run("1 2 do"), Err(ErrorType::Eval));
}

#[test]
fn conditional_without_forward_marker_is_an_eval_error() {
    let mut s = Session::new();
    assert_eq!(s.run("0 ? 1"), Err(ErrorType::Eval));
}

#[test]
fn string_literal_pushes_its_characters() {
    let mut s = Session::new();
    s.run("\"hi\"").unwrap();
    assert_eq!(s.stack[0].d, chars("hi"));
}

#[test]
fn empty_array_literal_is_an_empty_value() {
    let mut s = Session::new();
    s.run("[ ]").unwrap();
    assert_eq!(s.stack.len(), 1);
    assert!(s.stack[0].d.is_empty());
}

#[test]
fn comment_ends_the_line() {
    let mut s = Session::new();
    s.run("1 # 2 3").unwrap();
    assert_eq!(s.stack_nums(), vec![vec![1]]);
}

#[test]
fn unmatched_delimiters_are_parse_errors() {
    let mut s = Session::new();
    assert_eq!(s.run("\"abc"), Err(ErrorType::Parse));
    assert_eq!(s.run("[ 1"), Err(ErrorType::Parse));
    assert_eq!(s.run(": w 1"), Err(ErrorType::Parse));
    assert_eq!(s.run(": ;"), Err(ErrorType::Parse));
}

#[test]
fn malformed_numbers_are_parse_errors() {
    let mut s = Session::new();
    assert_eq!(s.run("1.5"), Err(ErrorType::Parse));
    assert_eq!(s.run("12abc"), Err(ErrorType::Parse));
    assert_eq!(s.run("[ 1 x ]"), Err(ErrorType::Parse));
    assert_eq!(s.run("99999999999999999999"), Err(ErrorType::Parse));
}

#[test]
fn unknown_words_are_silent_no_ops() {
    let mut s = Session::new();
    s.run("mystery 5").unwrap();
    assert_eq!(s.stack_nums(), vec![vec![5]]);
}

#[test]
fn later_definitions_replace_earlier_ones() {
    let mut s = Session::new();
    s.run(": w 1 ; : w 2 ;").unwrap();
    s.run("w").unwrap();
    assert_eq!(s.stack_nums(), vec![vec![2]]);
}

#[test]
fn words_may_call_other_words() {
    let mut s = Session::new();
    s.run(": one 1 ;").unwrap();
    s.run(": two one one + ;").unwrap();
    s.run("two").unwrap();
    assert_eq!(s.stack_nums(), vec![vec![2]]);
}

#[test]
fn unbounded_recursion_hits_the_depth_guard() {
    let mut s = Session::new();
    s.run(": f f ;").unwrap();
    assert_eq!(s.run("f"), Err(ErrorType::Eval));
}

#[test]
fn print_emits_a_copy_and_leaves_the_stack() {
    let mut s = Session::new();
    s.run("42 _").unwrap();
    assert_eq!(s.stack_nums(), vec![vec![42]]);
    assert_eq!(s.out.len(), 1);
    assert_eq!(s.out[0].d, nums(&[42]));
    s.run("clr _").unwrap();
    assert_eq!(s.out.len(), 1);
}

#[test]
fn number_at_end_of_line_is_read_whole() {
    let mut s = Session::new();
    s.run("25").unwrap();
    assert_eq!(s.stack_nums(), vec![vec![25]]);
}

#[test]
fn overflowing_addition_is_an_eval_error() {
    let mut s = Session::new();
    s.run("9223372036854775807 1").unwrap();
    assert_eq!(s.run("+"), Err(ErrorType::Eval));
}

#[test]
fn error_kinds_have_messages() {
    assert_eq!(ErrorType::Parse.message(), "Couldn't parse");
    assert_eq!(ErrorType::Eval.message(), "Couldn't eval");
    assert_eq!(ErrorType::Msg("oops".to_string()).message(), "oops");
}
