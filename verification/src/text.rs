//! Building the texts that describe individuals: decimal numbers, product
//! terms, and sums of terms.

use vstd::prelude::*;

verus! {

/// `String::push` of std appends one character to the end of the string.
pub assume_specification[ String::push ](text: &mut String, ch: char)
    ensures
        final(text)@ == old(text)@.push(ch),
;

/// `String::push_str` of std appends a string slice to the end of the string.
pub assume_specification[ String::push_str ](text: &mut String, string: &str)
    ensures
        final(text)@ == old(text)@ + string@,
;

/// The character of a decimal digit.
pub open spec fn digit_char(d: nat) -> char {
    if d == 0 {
        '0'
    } else if d == 1 {
        '1'
    } else if d == 2 {
        '2'
    } else if d == 3 {
        '3'
    } else if d == 4 {
        '4'
    } else if d == 5 {
        '5'
    } else if d == 6 {
        '6'
    } else if d == 7 {
        '7'
    } else if d == 8 {
        '8'
    } else {
        '9'
    }
}

/// The decimal numeral of a number, without leading zeros.
pub open spec fn decimal(n: nat) -> Seq<char>
    decreases n,
{
    if n < 10 {
        seq![digit_char(n)]
    } else {
        decimal(n / 10).push(digit_char(n % 10))
    }
}

/// Appends the decimal numeral of `n`.
pub fn push_decimal(text: &mut String, n: usize)
    ensures
        final(text)@ == old(text)@ + decimal(n as nat),
    decreases n,
{
    if n >= 10 {
        push_decimal(text, n / 10);
    }
    let digit = match n % 10 {
        0 => '0',
        1 => '1',
        2 => '2',
        3 => '3',
        4 => '4',
        5 => '5',
        6 => '6',
        7 => '7',
        8 => '8',
        _ => '9',
    };
    text.push(digit);
    assert(text@ =~= old(text)@ + decimal(n as nat));
}

/// The name of an input in a product term: `a` and its number, with a
/// prime where the input is complemented.
pub open spec fn literal_text(i: nat, complemented: bool) -> Seq<char> {
    if complemented {
        (seq!['a'] + decimal(i)).push('\'')
    } else {
        seq!['a'] + decimal(i)
    }
}

/// Appends the name of input `i`, with a prime where it is complemented.
pub fn push_literal(text: &mut String, i: usize, complemented: bool)
    ensures
        final(text)@ == old(text)@ + literal_text(i as nat, complemented),
{
    text.push('a');
    push_decimal(text, i);
    if complemented {
        text.push('\'');
    }
    assert(text@ =~= old(text)@ + literal_text(i as nat, complemented));
}

/// The terms that a column switches on among its first `upto` positions,
/// joined by ` + `.
pub open spec fn joined_terms(
    column: Seq<bool>,
    term: spec_fn(int) -> Seq<char>,
    upto: nat,
) -> Seq<char>
    decreases upto,
{
    if upto == 0 {
        Seq::<char>::empty()
    } else {
        let before = joined_terms(column, term, (upto - 1) as nat);
        if !column[upto - 1] {
            before
        } else if any_below(column, upto - 1) {
            before + seq![' ', '+', ' '] + term(upto - 1)
        } else {
            before + term(upto - 1)
        }
    }
}

/// The column switches on a position below `upto`.
pub open spec fn any_below(column: Seq<bool>, upto: int) -> bool {
    exists|j: int| 0 <= j < upto && column[j]
}

/// The line that describes output `i`: its name, ` = `, its terms joined by
/// ` + `, and a line feed.
pub open spec fn function_line(i: nat, column: Seq<bool>, term: spec_fn(int) -> Seq<char>) -> Seq<
    char,
> {
    (seq!['o', 'u', 't'] + decimal(i) + seq![' ', '=', ' '] + joined_terms(
        column,
        term,
        column.len(),
    )).push('\n')
}

/// The lines that describe the first `upto` outputs.
pub open spec fn function_lines(
    columns: Seq<Seq<bool>>,
    term: spec_fn(int) -> Seq<char>,
    upto: nat,
) -> Seq<char>
    decreases upto,
{
    if upto == 0 {
        Seq::<char>::empty()
    } else {
        function_lines(columns, term, (upto - 1) as nat) + function_line(
            (upto - 1) as nat,
            columns[upto - 1],
            term,
        )
    }
}

/// A position below `upto + 1` is switched on where one below `upto` is, or
/// `upto` itself.
pub proof fn lemma_any_below_step(column: Seq<bool>, upto: int)
    requires
        0 <= upto,
    ensures
        any_below(column, upto + 1) == (any_below(column, upto) || column[upto]),
{
    if any_below(column, upto + 1) {
        let j = choose|j: int| 0 <= j < upto + 1 && column[j];
        if j < upto {
            assert(any_below(column, upto));
        }
    }
    if any_below(column, upto) {
        let j = choose|j: int| 0 <= j < upto && column[j];
        assert(0 <= j < upto + 1 && column[j]);
    }
    if column[upto] {
        assert(0 <= upto < upto + 1 && column[upto]);
    }
}

/// Adds term `j`, whose text is `term_str`, to the description of each
/// output that switches it on, behind ` + ` where the output has a term
/// already.
pub(crate) fn add_term(
    output_functions: &mut Vec<String>,
    first_added: &mut Vec<bool>,
    matrix: &Vec<Vec<bool>>,
    j: usize,
    term_str: &String,
    Ghost(term): Ghost<spec_fn(int) -> Seq<char>>,
)
    requires
        old(output_functions)@.len() == matrix@.len(),
        old(first_added)@.len() == matrix@.len(),
        term_str@ == term(j as int),
        forall|i: int| 0 <= i < matrix@.len() ==> j < (#[trigger] matrix@[i])@.len(),
        forall|i: int|
            0 <= i < matrix@.len() ==> (#[trigger] old(output_functions)@[i])@ == joined_terms(
                matrix@[i]@,
                term,
                j as nat,
            ),
        forall|i: int|
            0 <= i < matrix@.len() ==> #[trigger] old(first_added)@[i] == !any_below(
                matrix@[i]@,
                j as int,
            ),
    ensures
        final(output_functions)@.len() == matrix@.len(),
        final(first_added)@.len() == matrix@.len(),
        forall|i: int|
            0 <= i < matrix@.len() ==> (#[trigger] final(output_functions)@[i])@ == joined_terms(
                matrix@[i]@,
                term,
                (j + 1) as nat,
            ),
        forall|i: int|
            0 <= i < matrix@.len() ==> #[trigger] final(first_added)@[i] == !any_below(
                matrix@[i]@,
                j + 1,
            ),
{
    let out_size = matrix.len();
    let mut i: usize = 0;
    while i < out_size
        invariant
            i <= out_size,
            out_size == matrix@.len(),
            output_functions@.len() == out_size,
            first_added@.len() == out_size,
            term_str@ == term(j as int),
            forall|k: int| 0 <= k < matrix@.len() ==> j < (#[trigger] matrix@[k])@.len(),
            forall|k: int|
                0 <= k < i ==> (#[trigger] output_functions@[k])@ == joined_terms(
                    matrix@[k]@,
                    term,
                    (j + 1) as nat,
                ),
            forall|k: int|
                0 <= k < i ==> #[trigger] first_added@[k] == !any_below(matrix@[k]@, j + 1),
            forall|k: int|
                i <= k < out_size ==> (#[trigger] output_functions@[k])@ == joined_terms(
                    matrix@[k]@,
                    term,
                    j as nat,
                ),
            forall|k: int|
                i <= k < out_size ==> #[trigger] first_added@[k] == !any_below(
                    matrix@[k]@,
                    j as int,
                ),
        decreases out_size - i,
    {
        proof {
            lemma_any_below_step(matrix@[i as int]@, j as int);
            reveal_strlit(" + ");
            assert(" + "@ =~= seq![' ', '+', ' ']);
        }
        if matrix[i][j] {
            if first_added[i] {
                first_added[i] = false;
            } else {
                output_functions[i].push_str(" + ");
            }
            output_functions[i].push_str(term_str.as_str());
        }
        i += 1;
    }
}

/// The text of the lines that describe the outputs, from the joined terms of
/// each output.
pub(crate) fn assemble_lines(
    output_functions: &Vec<String>,
    Ghost(columns): Ghost<Seq<Seq<bool>>>,
    Ghost(term): Ghost<spec_fn(int) -> Seq<char>>,
) -> (text: String)
    requires
        output_functions@.len() == columns.len(),
        forall|i: int|
            0 <= i < columns.len() ==> (#[trigger] output_functions@[i])@ == joined_terms(
                columns[i],
                term,
                columns[i].len(),
            ),
    ensures
        text@ == function_lines(columns, term, columns.len()),
{
    let mut text = String::new();
    let mut i: usize = 0;
    while i < output_functions.len()
        invariant
            i <= output_functions@.len(),
            output_functions@.len() == columns.len(),
            forall|k: int|
                0 <= k < columns.len() ==> (#[trigger] output_functions@[k])@ == joined_terms(
                    columns[k],
                    term,
                    columns[k].len(),
                ),
            text@ == function_lines(columns, term, i as nat),
        decreases output_functions@.len() - i,
    {
        let ghost before = text@;
        proof {
            reveal_strlit("out");
            reveal_strlit(" = ");
            assert("out"@ =~= seq!['o', 'u', 't']);
            assert(" = "@ =~= seq![' ', '=', ' ']);
        }
        text.push_str("out");
        push_decimal(&mut text, i);
        text.push_str(" = ");
        text.push_str(output_functions[i].as_str());
        text.push('\n');
        assert(text@ =~= before + function_line(i as nat, columns[i as int], term));
        i += 1;
    }
    text
}

/// The decimal numeral of an integer, with a minus sign where it is
/// negative.
pub open spec fn signed_decimal(n: int) -> Seq<char> {
    if n < 0 {
        seq!['-'] + decimal((-n) as nat)
    } else {
        decimal(n as nat)
    }
}

/// Appends the decimal numeral of `n`, with a minus sign where it is
/// negative.
pub fn push_signed_decimal(text: &mut String, n: i32)
    ensures
        final(text)@ == old(text)@ + signed_decimal(n as int),
{
    if n < 0 {
        text.push('-');
        let magnitude: i64 = -(n as i64);
        push_decimal(text, magnitude as usize);
        assert(text@ =~= old(text)@ + signed_decimal(n as int));
    } else {
        push_decimal(text, n as usize);
    }
}

} // verus!
