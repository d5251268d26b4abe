//! Boolean functions and digital systems: bit vectors, the logic gates, and
//! the encodings of a boolean vector function that compete in a search.

use crate::bitspace::{
    binary_cardinality, bits_of, bits_successor, bits_value, lemma_bits_carry,
    lemma_bits_not_full, lemma_bits_of_value, lemma_bits_value_bound,
    lemma_bits_value_injective, lemma_null_bits_value, lemma_null_row_value, lemma_pow_step,
    lemma_row_carry, lemma_row_not_full, lemma_row_not_null, lemma_row_of_value, null_bits,
    null_row, row_of, row_successor, row_value, ternary_cardinality,
};
use crate::genetic::{lemma_mutated_step, mutated_from, Individual};
use crate::random::draw_below;
use crate::text::{
    add_term, any_below, assemble_lines, decimal, function_lines, joined_terms, literal_text,
    push_decimal, push_literal,
};
use vstd::arithmetic::power::{lemma_pow0, lemma_pow_increases, lemma_pow_positive, pow};
use vstd::prelude::*;

verus! {

/// The state of one input in a product term: absent from the term, required
/// to be true, or required to be false.
#[derive(Clone, Copy, PartialEq, Eq, Structural, Debug)]
pub enum AndPseudoMatrixValue {
    NEITHER,
    REQUIRED,
    COMPLEMENT,
}

impl AndPseudoMatrixValue {
    /// The vacuous product term over the given number of inputs.
    pub fn new_null(vector_size: usize) -> (v: Vec<AndPseudoMatrixValue>)
        ensures
            v@ == null_row(vector_size as nat),
    {
        let mut v: Vec<AndPseudoMatrixValue> = Vec::with_capacity(vector_size);
        let mut i: usize = 0;
        while i < vector_size
            invariant
                i <= vector_size,
                v@ == null_row(i as nat),
            decreases vector_size - i,
        {
            v.push(AndPseudoMatrixValue::NEITHER);
            i += 1;
            assert(v@ =~= null_row(i as nat));
        }
        v
    }
}

/// One step of the ternary counter: advances the lowest trit that is not
/// complemented (absent to required, required to complemented) and resets
/// every trit below it to absent. The row must have such a trit.
pub fn increment_and_row(and_row: &mut Vec<AndPseudoMatrixValue>)
    requires
        exists|i: int|
            0 <= i < old(and_row)@.len() && old(and_row)@[i] != AndPseudoMatrixValue::COMPLEMENT,
    ensures
        final(and_row)@.len() == old(and_row)@.len(),
        row_value(final(and_row)@) == row_value(old(and_row)@) + 1,
        final(and_row)@ == row_successor(old(and_row)@),
{
    let ghost before = and_row@;
    let mut i: usize = 0;
    while i < and_row.len()
        invariant
            and_row@ == before,
            before == old(and_row)@,
            i <= before.len(),
            forall|j: int| 0 <= j < i ==> before[j] == AndPseudoMatrixValue::COMPLEMENT,
        decreases before.len() - i,
    {
        if and_row[i] != AndPseudoMatrixValue::COMPLEMENT {
            if and_row[i] == AndPseudoMatrixValue::NEITHER {
                and_row[i] = AndPseudoMatrixValue::REQUIRED;
            } else {
                and_row[i] = AndPseudoMatrixValue::COMPLEMENT;
            }
            let ghost advanced = and_row@[i as int];
            let mut j: usize = 0;
            while j < i
                invariant
                    j <= i,
                    i < before.len(),
                    and_row@.len() == before.len(),
                    and_row@[i as int] == advanced,
                    forall|k: int| 0 <= k < j ==> and_row@[k] == AndPseudoMatrixValue::NEITHER,
                    forall|k: int| i < k < before.len() ==> and_row@[k] == before[k],
                decreases i - j,
            {
                and_row[j] = AndPseudoMatrixValue::NEITHER;
                j += 1;
            }
            proof {
                lemma_row_carry(before, and_row@, i as int);
            }
            return ;
        }
        i += 1;
    }
}

/// The all-false bit vector of the given length.
pub fn get_null_bitvector(vector_size: usize) -> (v: Vec<bool>)
    ensures
        v@ == null_bits(vector_size as nat),
{
    let mut v: Vec<bool> = Vec::with_capacity(vector_size);
    let mut i: usize = 0;
    while i < vector_size
        invariant
            i <= vector_size,
            v@ == null_bits(i as nat),
        decreases vector_size - i,
    {
        v.push(false);
        i += 1;
        assert(v@ =~= null_bits(i as nat));
    }
    v
}

/// One step of the binary counter: sets the lowest clear bit and clears every
/// bit below it. The vector must have a clear bit.
pub fn increment_bitvector(bitvector: &mut Vec<bool>)
    requires
        exists|i: int| 0 <= i < old(bitvector)@.len() && !old(bitvector)@[i],
    ensures
        final(bitvector)@.len() == old(bitvector)@.len(),
        bits_value(final(bitvector)@) == bits_value(old(bitvector)@) + 1,
        final(bitvector)@ == bits_successor(old(bitvector)@),
{
    let ghost before = bitvector@;
    let mut i: usize = 0;
    while i < bitvector.len()
        invariant
            bitvector@ == before,
            before == old(bitvector)@,
            i <= before.len(),
            forall|j: int| 0 <= j < i ==> before[j],
        decreases before.len() - i,
    {
        if !bitvector[i] {
            bitvector[i] = true;
            let mut j: usize = 0;
            while j < i
                invariant
                    j <= i,
                    i < before.len(),
                    bitvector@.len() == before.len(),
                    bitvector@[i as int],
                    forall|k: int| 0 <= k < j ==> !bitvector@[k],
                    forall|k: int| i < k < before.len() ==> bitvector@[k] == before[k],
                decreases i - j,
            {
                bitvector[j] = false;
                j += 1;
            }
            proof {
                lemma_bits_carry(before, bitvector@, i as int);
            }
            return ;
        }
        i += 1;
    }
}

/// `base` to the power `exponent`, where that fits in a `usize`.
pub fn power(base: usize, exponent: usize) -> (result: usize)
    requires
        base >= 1,
        pow(base as int, exponent as nat) <= usize::MAX,
    ensures
        result == pow(base as int, exponent as nat),
{
    let mut result: usize = 1;
    let mut i: usize = 0;
    proof {
        lemma_pow0(base as int);
    }
    while i < exponent
        invariant
            base >= 1,
            i <= exponent,
            result == pow(base as int, i as nat),
            pow(base as int, exponent as nat) <= usize::MAX,
        decreases exponent - i,
    {
        proof {
            lemma_pow_step(base as int, i as nat);
            lemma_pow_increases(base as nat, (i + 1) as nat, exponent as nat);
        }
        result = result * base;
        i += 1;
    }
    result
}

/// Basic logic gates: the operations between two bits.
#[derive(Clone, Copy, PartialEq, Eq, Structural, Debug)]
pub enum BinOp {
    AND,
    OR,
    XOR,
    NAND,
    NOR,
    XNOR,
}

/// What a gate makes of two bits.
pub open spec fn gate_output(operation_type: BinOp, a: bool, b: bool) -> bool {
    match operation_type {
        BinOp::AND => a && b,
        BinOp::OR => a || b,
        BinOp::XOR => a != b,
        BinOp::NAND => !(a && b),
        BinOp::NOR => !(a || b),
        BinOp::XNOR => a == b,
    }
}

/// What a gate makes, bit by bit, of the two halves of an input of even
/// length.
pub open spec fn gate_result(operation_type: BinOp, input: Seq<bool>) -> Seq<bool> {
    Seq::new(
        (input.len() / 2) as nat,
        |i: int| gate_output(operation_type, input[i], input[i + input.len() / 2]),
    )
}

impl BinOp {
    /// The operation with the given number, counted from zero in the order
    /// AND, OR, XOR, NAND, NOR, XNOR.
    pub open spec fn spec_from_u32(input: u32) -> BinOp {
        if input == 0 {
            BinOp::AND
        } else if input == 1 {
            BinOp::OR
        } else if input == 2 {
            BinOp::XOR
        } else if input == 3 {
            BinOp::NAND
        } else if input == 4 {
            BinOp::NOR
        } else {
            BinOp::XNOR
        }
    }

    /// The name of the operation.
    pub open spec fn spec_to_str(&self) -> Seq<char> {
        match self {
            BinOp::AND => seq!['A', 'N', 'D'],
            BinOp::OR => seq!['O', 'R'],
            BinOp::XOR => seq!['X', 'O', 'R'],
            BinOp::NAND => seq!['N', 'A', 'N', 'D'],
            BinOp::NOR => seq!['N', 'O', 'R'],
            BinOp::XNOR => seq!['X', 'N', 'O', 'R'],
        }
    }

    /// The operation with the given number, which is at most five.
    pub fn from_u32(input: u32) -> (operation_type: BinOp)
        requires
            input <= 5,
        ensures
            operation_type == BinOp::spec_from_u32(input),
    {
        match input {
            0 => BinOp::AND,
            1 => BinOp::OR,
            2 => BinOp::XOR,
            3 => BinOp::NAND,
            4 => BinOp::NOR,
            _ => BinOp::XNOR,
        }
    }

    /// The name of the operation, in capitals.
    pub fn to_str(&self) -> (name: &'static str)
        ensures
            name@ == self.spec_to_str(),
    {
        proof {
            reveal_strlit("AND");
            reveal_strlit("OR");
            reveal_strlit("XOR");
            reveal_strlit("NAND");
            reveal_strlit("NOR");
            reveal_strlit("XNOR");
        }
        let name = match self {
            BinOp::AND => "AND",
            BinOp::OR => "OR",
            BinOp::XOR => "XOR",
            BinOp::NAND => "NAND",
            BinOp::NOR => "NOR",
            BinOp::XNOR => "XNOR",
        };
        assert(name@ =~= self.spec_to_str());
        name
    }
}

/// A product term holds of an input: every required input is true and every
/// complemented input is false.
pub open spec fn row_matches(and_row: Seq<AndPseudoMatrixValue>, input: Seq<bool>) -> bool {
    forall|i: int|
        0 <= i < and_row.len() ==> (and_row[i] == AndPseudoMatrixValue::REQUIRED ==> input[i]) && (
        and_row[i] == AndPseudoMatrixValue::COMPLEMENT ==> !input[i])
}

/// Whether a product term holds of an input. The term must name at least one
/// input: the vacuous term is never asked.
pub fn compare_and_row(and_row: &Vec<AndPseudoMatrixValue>, input: &Vec<bool>) -> (matches: bool)
    requires
        and_row@.len() == input@.len(),
        exists|i: int| 0 <= i < and_row@.len() && and_row@[i] != AndPseudoMatrixValue::NEITHER,
    ensures
        matches == row_matches(and_row@, input@),
{
    let mut i: usize = 0;
    while i < and_row.len()
        invariant
            i <= and_row@.len(),
            and_row@.len() == input@.len(),
            forall|k: int|
                0 <= k < i ==> (and_row@[k] == AndPseudoMatrixValue::REQUIRED ==> input@[k]) && (
                and_row@[k] == AndPseudoMatrixValue::COMPLEMENT ==> !input@[k]),
        decreases and_row@.len() - i,
    {
        if (and_row[i] == AndPseudoMatrixValue::REQUIRED && !input[i]) || (and_row[i]
            == AndPseudoMatrixValue::COMPLEMENT && input[i]) {
            return false;
        }
        i += 1;
    }
    true
}

/// Whether `bitvector` has a set bit and every bit set in it is also set in
/// `other`.
pub fn compare_and(bitvector: &Vec<bool>, other: &Vec<bool>) -> (covered: bool)
    requires
        bitvector@.len() == other@.len(),
    ensures
        covered == ((exists|i: int| 0 <= i < bitvector@.len() && bitvector@[i]) && (forall|i: int|
            0 <= i < bitvector@.len() && bitvector@[i] ==> other@[i])),
{
    let mut to_return = false;
    let mut i: usize = 0;
    while i < bitvector.len()
        invariant
            i <= bitvector@.len(),
            bitvector@.len() == other@.len(),
            to_return == (exists|k: int| 0 <= k < i && bitvector@[k]),
            forall|k: int| 0 <= k < i && bitvector@[k] ==> other@[k],
        decreases bitvector@.len() - i,
    {
        if bitvector[i] {
            to_return = true;
            if !other[i] {
                return false;
            }
        }
        i += 1;
    }
    to_return
}

/// Whether two bit vectors of one length are equal.
pub fn eq_bitvector(bitvector: &Vec<bool>, other: &Vec<bool>) -> (equal: bool)
    requires
        bitvector@.len() == other@.len(),
    ensures
        equal == (bitvector@ == other@),
{
    let mut i: usize = 0;
    while i < bitvector.len()
        invariant
            i <= bitvector@.len(),
            bitvector@.len() == other@.len(),
            forall|k: int| 0 <= k < i ==> bitvector@[k] == other@[k],
        decreases bitvector@.len() - i,
    {
        if bitvector[i] != other[i] {
            return false;
        }
        i += 1;
    }
    assert(bitvector@ =~= other@);
    true
}

/// Applies a gate, bit by bit, to the first and the second half of an input
/// of even length.
pub fn calculate_result(operation_type: &BinOp, input: &Vec<bool>) -> (result: Vec<bool>)
    requires
        input@.len() % 2 == 0,
    ensures
        result@ == gate_result(*operation_type, input@),
{
    let half_size = input.len() / 2;
    let mut result: Vec<bool> = Vec::with_capacity(half_size);
    let mut i: usize = 0;
    while i < half_size
        invariant
            i <= half_size,
            half_size == input@.len() / 2,
            half_size + half_size == input.len(),
            result@.len() == i,
            forall|k: int|
                0 <= k < i ==> result@[k] == gate_output(
                    *operation_type,
                    input@[k],
                    input@[k + half_size],
                ),
        decreases half_size - i,
    {
        let a = input[i];
        let b = input[i + half_size];
        result.push(
            match operation_type {
                BinOp::AND => a && b,
                BinOp::OR => a || b,
                BinOp::XOR => a != b,
                BinOp::NOR => !(a || b),
                BinOp::NAND => !(a && b),
                BinOp::XNOR => a == b,
            },
        );
        i += 1;
    }
    assert(result@ =~= gate_result(*operation_type, input@));
    result
}

/// A bit vector of the given length, each bit drawn at random.
pub fn get_rand_bitvector(vector_size: usize) -> (v: Vec<bool>)
    ensures
        v@.len() == vector_size,
{
    let mut v: Vec<bool> = Vec::with_capacity(vector_size);
    let mut i: usize = 0;
    while i < vector_size
        invariant
            i <= vector_size,
            v@.len() == i,
        decreases vector_size - i,
    {
        v.push(draw_below(2) > 0);
        i += 1;
    }
    v
}

/// A matrix of bits with one bit inverted.
pub open spec fn flipped(matrix: Seq<Seq<bool>>, row: int, position: int) -> Seq<Seq<bool>> {
    matrix.update(row, matrix[row].update(position, !matrix[row][position]))
}

/// `after` is `before` with exactly one bit inverted.
pub open spec fn one_flip_apart(before: Seq<Seq<bool>>, after: Seq<Seq<bool>>) -> bool {
    exists|row: int, position: int|
        0 <= row < before.len() && 0 <= position < before[row].len() && after == #[trigger] flipped(
            before,
            row,
            position,
        )
}

/// The matrix of `rows` all-false rows of length `width`.
pub open spec fn null_matrix(rows: nat, width: nat) -> Seq<Seq<bool>> {
    Seq::new(rows, |i: int| null_bits(width))
}

/// The rows of a matrix, each as a sequence.
pub open spec fn matrix_view<T>(matrix: Vec<Vec<T>>) -> Seq<Seq<T>> {
    Seq::new(matrix@.len(), |i: int| matrix@[i]@)
}

/// A matrix of `rows` all-false rows of length `width`.
fn null_columns(rows: usize, width: usize) -> (matrix: Vec<Vec<bool>>)
    ensures
        matrix_view(matrix) == null_matrix(rows as nat, width as nat),
{
    let mut matrix: Vec<Vec<bool>> = Vec::with_capacity(rows);
    let mut i: usize = 0;
    while i < rows
        invariant
            i <= rows,
            matrix@.len() == i,
            forall|k: int| 0 <= k < i ==> (#[trigger] matrix@[k])@ == null_bits(width as nat),
        decreases rows - i,
    {
        matrix.push(get_null_bitvector(width));
        i += 1;
    }
    assert(matrix_view(matrix) =~= null_matrix(rows as nat, width as nat));
    matrix
}

/// A matrix of `rows` rows of length `width`, each bit drawn at random.
fn rand_columns(rows: usize, width: usize) -> (matrix: Vec<Vec<bool>>)
    ensures
        matrix_view(matrix).len() == rows,
        forall|k: int| 0 <= k < rows ==> (#[trigger] matrix_view(matrix)[k]).len() == width,
{
    let mut matrix: Vec<Vec<bool>> = Vec::with_capacity(rows);
    let mut i: usize = 0;
    while i < rows
        invariant
            i <= rows,
            matrix@.len() == i,
            forall|k: int| 0 <= k < i ==> (#[trigger] matrix@[k])@.len() == width,
        decreases rows - i,
    {
        matrix.push(get_rand_bitvector(width));
        i += 1;
    }
    matrix
}

/// A copy of a matrix.
pub(crate) fn clone_columns<T: Copy>(matrix: &Vec<Vec<T>>) -> (copy: Vec<Vec<T>>)
    ensures
        matrix_view(copy) == matrix_view(*matrix),
{
    let mut copy: Vec<Vec<T>> = Vec::with_capacity(matrix.len());
    let mut i: usize = 0;
    while i < matrix.len()
        invariant
            i <= matrix@.len(),
            copy@.len() == i,
            forall|k: int| 0 <= k < i ==> (#[trigger] copy@[k])@ == matrix@[k]@,
        decreases matrix@.len() - i,
    {
        let mut column: Vec<T> = Vec::with_capacity(matrix[i].len());
        let mut j: usize = 0;
        while j < matrix[i].len()
            invariant
                i < matrix@.len(),
                j <= matrix@[i as int]@.len(),
                column@.len() == j,
                forall|k: int| 0 <= k < j ==> column@[k] == matrix@[i as int]@[k],
            decreases matrix@[i as int]@.len() - j,
        {
            column.push(matrix[i][j]);
            j += 1;
        }
        assert(column@ =~= matrix@[i as int]@);
        copy.push(column);
        i += 1;
    }
    assert(matrix_view(copy) =~= matrix_view(*matrix));
    copy
}

/// Inverts one bit of a matrix of bits.
fn flip_in_columns(matrix: &mut Vec<Vec<bool>>, row: usize, position: usize)
    requires
        row < old(matrix)@.len(),
        position < old(matrix)@[row as int]@.len(),
    ensures
        matrix_view(*final(matrix)) == flipped(
            matrix_view(*old(matrix)),
            row as int,
            position as int,
        ),
{
    let bit = matrix[row][position];
    matrix[row][position] = !bit;
    assert(matrix_view(*matrix) =~= flipped(
        matrix_view(*old(matrix)),
        row as int,
        position as int,
    ));
}

/// The text of the first `upto` bits of a vector: `1` or `0` for each, each
/// followed by a space.
pub open spec fn bits_text(v: Seq<bool>, upto: nat) -> Seq<char>
    decreases upto,
{
    if upto == 0 {
        Seq::<char>::empty()
    } else {
        bits_text(v, (upto - 1) as nat) + seq![
            if v[upto - 1] {
                '1'
            } else {
                '0'
            },
            ' ',
        ]
    }
}

/// The line that shows a bit vector.
pub fn print_bitvector(v: &[bool]) -> (text: String)
    ensures
        text@ == bits_text(v@, v@.len()).push('\n'),
{
    let mut text = String::new();
    let mut i: usize = 0;
    while i < v.len()
        invariant
            i <= v@.len(),
            text@ == bits_text(v@, i as nat),
        decreases v@.len() - i,
    {
        text.push(
            if v[i] {
                '1'
            } else {
                '0'
            },
        );
        text.push(' ');
        i += 1;
        assert(text@ =~= bits_text(v@, i as nat));
    }
    text.push('\n');
    text
}

/// The line that shows a bit vector up to a limit: all of it where it has at
/// most `max + 1` bits, else its first `max + 2` bits, three dots and its
/// length.
pub open spec fn limited_bits_text(v: Seq<bool>, max: nat) -> Seq<char> {
    if v.len() <= max + 1 {
        bits_text(v, v.len()).push('\n')
    } else {
        (bits_text(v, max + 2) + seq!['.', '.', '.', '('] + decimal(v.len()) + seq![
            ' ',
            'b',
            'i',
            't',
            's',
            ')',
        ]).push('\n')
    }
}

/// The line that shows a bit vector up to a limit.
pub fn print_limited_bitvector(v: &[bool], max: usize) -> (text: String)
    ensures
        text@ == limited_bits_text(v@, max as nat),
{
    let mut text = String::new();
    let mut i: usize = 0;
    while i < v.len()
        invariant
            i <= v@.len(),
            i <= max + 1,
            text@ == bits_text(v@, i as nat),
        decreases v@.len() - i,
    {
        text.push(
            if v[i] {
                '1'
            } else {
                '0'
            },
        );
        text.push(' ');
        assert(text@ =~= bits_text(v@, (i + 1) as nat));
        if i > max {
            proof {
                reveal_strlit("...(");
                reveal_strlit(" bits)");
            }
            text.push_str("...(");
            push_decimal(&mut text, v.len());
            text.push_str(" bits)");
            text.push('\n');
            assert(text@ =~= limited_bits_text(v@, max as nat));
            return text;
        }
        i += 1;
    }
    text.push('\n');
    text
}

/// The text of one position of a product term.
pub open spec fn trit_text(i: nat, value: AndPseudoMatrixValue) -> Seq<char> {
    match value {
        AndPseudoMatrixValue::NEITHER => Seq::<char>::empty(),
        AndPseudoMatrixValue::REQUIRED => literal_text(i, false),
        AndPseudoMatrixValue::COMPLEMENT => literal_text(i, true),
    }
}

/// The text of the first `upto` positions of a product term: the names of the
/// inputs that it requires or complements, in order.
pub open spec fn and_func_text(and_row: Seq<AndPseudoMatrixValue>, upto: nat) -> Seq<char>
    decreases upto,
{
    if upto == 0 {
        Seq::<char>::empty()
    } else {
        and_func_text(and_row, (upto - 1) as nat) + trit_text(
            (upto - 1) as nat,
            and_row[upto - 1],
        )
    }
}

/// The text of a product term.
pub fn and_func_to_str(and_row: &Vec<AndPseudoMatrixValue>) -> (text: String)
    ensures
        text@ == and_func_text(and_row@, and_row@.len()),
{
    let mut to_return = String::new();
    let mut i: usize = 0;
    while i < and_row.len()
        invariant
            i <= and_row@.len(),
            to_return@ == and_func_text(and_row@, i as nat),
        decreases and_row@.len() - i,
    {
        if and_row[i] == AndPseudoMatrixValue::REQUIRED {
            push_literal(&mut to_return, i, false);
        } else if and_row[i] == AndPseudoMatrixValue::COMPLEMENT {
            push_literal(&mut to_return, i, true);
        } else {
            assert(to_return@ + Seq::<char>::empty() =~= to_return@);
        }
        i += 1;
    }
    to_return
}

/// The text of the minterm of the first `upto` bits of a point of the input
/// space: every input by name, complemented where its bit is clear.
pub open spec fn minterm_text(bits: Seq<bool>, upto: nat) -> Seq<char>
    decreases upto,
{
    if upto == 0 {
        Seq::<char>::empty()
    } else {
        minterm_text(bits, (upto - 1) as nat) + literal_text((upto - 1) as nat, !bits[upto - 1])
    }
}

/// The text of the minterm of a point of the input space.
pub fn bitvec2minterm_str(and_row: &Vec<bool>) -> (text: String)
    ensures
        text@ == minterm_text(and_row@, and_row@.len()),
{
    let mut to_return = String::new();
    let mut i: usize = 0;
    while i < and_row.len()
        invariant
            i <= and_row@.len(),
            to_return@ == minterm_text(and_row@, i as nat),
        decreases and_row@.len() - i,
    {
        push_literal(&mut to_return, i, !and_row[i]);
        i += 1;
    }
    to_return
}

/// The sum inside the maxterm of the first `upto` bits of a point: every
/// input by name, complemented where its bit is set, joined by ` + `.
pub open spec fn maxterm_sum_text(bits: Seq<bool>, upto: nat) -> Seq<char>
    decreases upto,
{
    if upto == 0 {
        Seq::<char>::empty()
    } else if upto == 1 {
        literal_text(0, bits[0])
    } else {
        maxterm_sum_text(bits, (upto - 1) as nat) + seq![' ', '+', ' '] + literal_text(
            (upto - 1) as nat,
            bits[upto - 1],
        )
    }
}

/// The text of the maxterm of a point of the input space, in parentheses.
pub fn bitvec2maxterm(and_row: &Vec<bool>) -> (text: String)
    ensures
        text@ == (seq!['('] + maxterm_sum_text(and_row@, and_row@.len())).push(')'),
{
    let mut to_return = String::new();
    to_return.push('(');
    let mut first_added = true;
    let mut i: usize = 0;
    while i < and_row.len()
        invariant
            i <= and_row@.len(),
            first_added == (i == 0),
            to_return@ == seq!['('] + maxterm_sum_text(and_row@, i as nat),
        decreases and_row@.len() - i,
    {
        let ghost before = to_return@;
        if first_added {
            first_added = false;
        } else {
            proof {
                reveal_strlit(" + ");
                assert(" + "@ =~= seq![' ', '+', ' ']);
            }
            to_return.push_str(" + ");
        }
        // the opposite of minterms by convention
        push_literal(&mut to_return, i, and_row[i]);
        i += 1;
        assert(to_return@ =~= seq!['('] + maxterm_sum_text(and_row@, i as nat));
    }
    to_return.push(')');
    to_return
}

/// The text of the product term at each position of a column of an
/// or-matrix over `in_size` inputs.
pub open spec fn product_term_at(in_size: nat) -> spec_fn(int) -> Seq<char> {
    |j: int| and_func_text(row_of((j + 1) as nat, in_size), in_size)
}

/// The text of the minterm at each position of a column of a truth table
/// over `in_size` inputs.
pub open spec fn minterm_at(in_size: nat) -> spec_fn(int) -> Seq<char> {
    |j: int| minterm_text(bits_of(j as nat, in_size), in_size)
}

/// One empty text and one raised flag for each of `out_size` outputs.
fn blank_functions(out_size: usize) -> (blank: (Vec<String>, Vec<bool>))
    ensures
        blank.0@.len() == out_size,
        blank.1@.len() == out_size,
        forall|i: int| 0 <= i < out_size ==> (#[trigger] blank.0@[i])@ == Seq::<char>::empty(),
        forall|i: int| 0 <= i < out_size ==> #[trigger] blank.1@[i],
{
    let mut output_functions: Vec<String> = Vec::with_capacity(out_size);
    let mut first_added: Vec<bool> = Vec::with_capacity(out_size);
    let mut i: usize = 0;
    while i < out_size
        invariant
            i <= out_size,
            output_functions@.len() == i,
            first_added@.len() == i,
            forall|k: int|
                0 <= k < i ==> (#[trigger] output_functions@[k])@ == Seq::<char>::empty(),
            forall|k: int| 0 <= k < i ==> #[trigger] first_added@[k],
        decreases out_size - i,
    {
        output_functions.push(String::new());
        first_added.push(true);
        i += 1;
    }
    (output_functions, first_added)
}

/// A truth table: for each output bit one column, with one entry for each
/// point of the input space, in the order of the binary counter.
#[derive(Debug)]
pub struct TruthTable {
    outputs: Vec<Vec<bool>>,
    in_size: usize,
}

impl Clone for TruthTable {
    fn clone(&self) -> (copy: TruthTable)
        ensures
            copy.spec_in_size() == self.spec_in_size(),
            copy.columns() == self.columns(),
    {
        TruthTable { outputs: clone_columns(&self.outputs), in_size: self.in_size }
    }
}

impl TruthTable {
    /// The number of input bits.
    pub closed spec fn spec_in_size(&self) -> nat {
        self.in_size as nat
    }

    /// The columns of the table, one for each output bit.
    pub closed spec fn columns(&self) -> Seq<Seq<bool>> {
        matrix_view(self.outputs)
    }

    /// The table has `in_size` input bits, `out_size` output bits and only
    /// false entries.
    pub open spec fn is_null(&self, in_size: nat, out_size: nat) -> bool {
        &&& self.spec_in_size() == in_size
        &&& self.columns() == null_matrix(out_size, binary_cardinality(in_size) as nat)
    }

    /// A table without outputs.
    pub fn new_empt(in_size: usize) -> (tt: TruthTable)
        requires
            binary_cardinality(in_size as nat) <= usize::MAX,
        ensures
            tt.wf(),
            tt.is_null(in_size as nat, 0),
    {
        let tt = TruthTable { in_size: in_size, outputs: vec![] };
        assert(tt.columns() =~= null_matrix(0, binary_cardinality(in_size as nat) as nat));
        tt
    }

    /// The table whose entries are all false.
    pub fn new_null(in_size: usize, out_size: usize) -> (tt: TruthTable)
        requires
            binary_cardinality(in_size as nat) <= usize::MAX,
        ensures
            tt.wf(),
            tt.is_null(in_size as nat, out_size as nat),
    {
        let column_size = power(2, in_size);
        TruthTable { in_size: in_size, outputs: null_columns(out_size, column_size) }
    }

    /// A table whose entries are drawn at random.
    pub fn new_rand(in_size: usize, out_size: usize) -> (tt: TruthTable)
        requires
            binary_cardinality(in_size as nat) <= usize::MAX,
        ensures
            tt.wf(),
            tt.spec_in_size() == in_size,
            tt.columns().len() == out_size,
    {
        let column_size = power(2, in_size);
        TruthTable { in_size: in_size, outputs: rand_columns(out_size, column_size) }
    }

    /// The all-false table after `num_mutations` mutations in a row.
    pub fn new_muta(in_size: usize, out_size: usize, num_mutations: u32) -> (tt: TruthTable)
        requires
            binary_cardinality(in_size as nat) <= usize::MAX,
            num_mutations > 0 ==> out_size > 0,
        ensures
            tt.wf(),
            tt.spec_in_size() == in_size,
            tt.columns().len() == out_size,
            exists|null: TruthTable|
                null.is_null(in_size as nat, out_size as nat) && #[trigger] mutated_from(
                    tt,
                    null,
                    num_mutations as nat,
                ),
    {
        let mut tt = TruthTable::new_null(in_size, out_size);
        let ghost null = tt;
        let mut i: u32 = 0;
        while i < num_mutations
            invariant
                i <= num_mutations,
                num_mutations > 0 ==> out_size > 0,
                tt.wf(),
                tt.spec_in_size() == in_size,
                tt.columns().len() == out_size,
                mutated_from(tt, null, i as nat),
            decreases num_mutations - i,
        {
            let ghost parent = tt;
            tt.mutate();
            proof {
                lemma_mutated_step(tt, parent, null, i as nat);
            }
            i += 1;
        }
        tt
    }

    /// The number of points of the input space: the length of each column.
    pub fn get_input_space_cardinality(&self) -> (cardinality: usize)
        requires
            self.wf(),
        ensures
            cardinality == binary_cardinality(self.spec_in_size()),
    {
        power(2, self.in_size)
    }

    /// Inverts the entry of one output at one point of the input space.
    pub fn flip(&mut self, chosen_output: usize, chosen_input_combination: usize)
        requires
            old(self).wf(),
            chosen_output < old(self).columns().len(),
            chosen_input_combination < binary_cardinality(old(self).spec_in_size()),
        ensures
            final(self).wf(),
            final(self).spec_in_size() == old(self).spec_in_size(),
            final(self).columns() == flipped(
                old(self).columns(),
                chosen_output as int,
                chosen_input_combination as int,
            ),
    {
        assert(self.columns()[chosen_output as int].len() == binary_cardinality(
            self.spec_in_size(),
        ));
        flip_in_columns(&mut self.outputs, chosen_output, chosen_input_combination);
    }
}

impl Individual for TruthTable {
    open spec fn wf(&self) -> bool {
        &&& binary_cardinality(self.spec_in_size()) <= usize::MAX
        &&& forall|i: int|
            0 <= i < self.columns().len() ==> (#[trigger] self.columns()[i]).len()
                == binary_cardinality(self.spec_in_size())
    }

    open spec fn spec_input_size(&self) -> nat {
        self.spec_in_size()
    }

    open spec fn spec_output_size(&self) -> nat {
        self.columns().len()
    }

    /// Each output is the entry of its column at the number that the input
    /// stands for.
    open spec fn spec_calculate_output(&self, input: Seq<bool>) -> Seq<bool> {
        Seq::new(self.columns().len(), |i: int| self.columns()[i][bits_value(input) as int])
    }

    open spec fn can_mutate(&self) -> bool {
        self.columns().len() > 0
    }

    open spec fn mutation_of(&self, parent: &Self) -> bool {
        &&& self.spec_in_size() == parent.spec_in_size()
        &&& one_flip_apart(parent.columns(), self.columns())
    }

    /// One line for each output: its minterms, joined by ` + `.
    open spec fn spec_print(&self) -> Seq<char> {
        function_lines(self.columns(), minterm_at(self.spec_in_size()), self.columns().len())
    }

    fn print(&self) -> (text: String) {
        let out_size = self.outputs.len();
        let column_size = self.get_input_space_cardinality();
        let mut minterm = get_null_bitvector(self.in_size);
        let (mut output_functions, mut first_added) = blank_functions(out_size);
        let ghost in_size = self.spec_in_size();
        let ghost term = minterm_at(in_size);
        proof {
            lemma_null_bits_value(in_size);
            assert forall|i: int| 0 <= i < out_size implies !any_below(
                #[trigger] self.outputs@[i]@,
                0,
            ) by {}
        }
        let mut j: usize = 0;
        while j < column_size
            invariant
                self.wf(),
                in_size == self.spec_in_size(),
                term == minterm_at(in_size),
                out_size == self.outputs@.len(),
                column_size == binary_cardinality(in_size),
                j <= column_size,
                minterm@.len() == in_size,
                j < column_size ==> bits_value(minterm@) == j,
                output_functions@.len() == out_size,
                first_added@.len() == out_size,
                forall|i: int|
                    0 <= i < out_size ==> (#[trigger] output_functions@[i])@ == joined_terms(
                        self.outputs@[i]@,
                        term,
                        j as nat,
                    ),
                forall|i: int|
                    0 <= i < out_size ==> #[trigger] first_added@[i] == !any_below(
                        self.outputs@[i]@,
                        j as int,
                    ),
            decreases column_size - j,
        {
            let minterm_str = bitvec2minterm_str(&minterm);
            proof {
                lemma_bits_of_value(minterm@);
                assert forall|i: int| 0 <= i < out_size implies j < (
                #[trigger] self.outputs@[i])@.len() by {
                    assert(self.columns()[i].len() == column_size);
                }
            }
            add_term(
                &mut output_functions,
                &mut first_added,
                &self.outputs,
                j,
                &minterm_str,
                Ghost(term),
            );
            if j < column_size - 1 {
                proof {
                    lemma_bits_not_full(minterm@);
                }
                increment_bitvector(&mut minterm);
            }
            j += 1;
        }
        proof {
            assert forall|i: int| 0 <= i < out_size implies (#[trigger] output_functions@[i])@
                == joined_terms(self.columns()[i], term, self.columns()[i].len()) by {
                assert(self.columns()[i].len() == column_size);
            }
        }
        assemble_lines(&output_functions, Ghost(self.columns()), Ghost(term))
    }

    fn calculate_output(&self, input: &Vec<bool>) -> (output: Vec<bool>) {
        let out_size = self.outputs.len();
        let mut output = get_null_bitvector(out_size);
        let column_size = self.get_input_space_cardinality();
        let mut minterm = get_null_bitvector(self.in_size);
        let ghost wanted = bits_value(input@) as int;
        proof {
            lemma_null_bits_value(self.in_size as nat);
            lemma_bits_value_bound(input@);
        }
        let mut j: usize = 0;
        while j < column_size
            invariant
                self.wf(),
                input@.len() == self.spec_in_size(),
                out_size == self.columns().len(),
                column_size == binary_cardinality(self.spec_in_size()),
                wanted == bits_value(input@),
                0 <= wanted < column_size,
                j <= column_size,
                minterm@.len() == self.spec_in_size(),
                j < column_size ==> bits_value(minterm@) == j,
                output@.len() == out_size,
                forall|i: int|
                    0 <= i < out_size ==> output@[i] == (wanted < j && self.columns()[i][wanted]),
            decreases column_size - j,
        {
            let mut i: usize = 0;
            while i < out_size
                invariant
                    self.wf(),
                    input@.len() == self.spec_in_size(),
                    out_size == self.columns().len(),
                    column_size == binary_cardinality(self.spec_in_size()),
                    wanted == bits_value(input@),
                    j < column_size,
                    minterm@.len() == self.spec_in_size(),
                    bits_value(minterm@) == j,
                    output@.len() == out_size,
                    i <= out_size,
                    forall|k: int|
                        0 <= k < i ==> output@[k] == (wanted <= j && self.columns()[k][wanted]),
                    forall|k: int|
                        i <= k < out_size ==> output@[k] == (wanted < j
                            && self.columns()[k][wanted]),
                decreases out_size - i,
            {
                proof {
                    if wanted == j {
                        lemma_bits_value_injective(minterm@, input@);
                    }
                    assert(self.columns()[i as int].len() == column_size);
                    assert(self.columns()[i as int] == self.outputs@[i as int]@);
                }
                if !output[i] && self.outputs[i][j] && eq_bitvector(&minterm, input) {
                    output[i] = true;
                }
                i += 1;
            }
            if j < column_size - 1 {
                proof {
                    lemma_bits_not_full(minterm@);
                }
                increment_bitvector(&mut minterm);
            }
            j += 1;
        }
        assert(output@ =~= self.spec_calculate_output(input@));
        output
    }

    fn mutate(&mut self) {
        let chosen_output = draw_below(self.outputs.len());
        proof {
            lemma_pow_positive(2, self.spec_in_size());
            assert(self.columns()[0].len() == binary_cardinality(self.spec_in_size()));
        }
        let chosen_input_combination = draw_below(self.outputs[0].len());
        self.flip(chosen_output, chosen_input_combination);
    }

    fn input_size(&self) -> (size: usize) {
        self.in_size
    }

    fn output_size(&self) -> (size: usize) {
        self.outputs.len()
    }

    proof fn lemma_output_size(&self, input: Seq<bool>) {
    }

    proof fn lemma_clone(&self, copy: &Self) {
    }
}

/// The product term at position `j` of a column of an or-matrix is switched on
/// and holds of the input. Position `j` stands for the row of number `j + 1`:
/// the vacuous row of number zero has no position.
pub open spec fn term_holds(column: Seq<bool>, in_size: nat, input: Seq<bool>, j: int) -> bool {
    column[j] && row_matches(row_of((j + 1) as nat, in_size), input)
}

/// One of the product terms at the positions below `bound` is switched on and
/// holds of the input.
pub open spec fn sum_holds_below(
    column: Seq<bool>,
    in_size: nat,
    input: Seq<bool>,
    bound: int,
) -> bool {
    exists|j: int| 0 <= j < bound && #[trigger] term_holds(column, in_size, input, j)
}

/// The sum of products that a column of an or-matrix stands for.
pub open spec fn sum_of_products(column: Seq<bool>, in_size: nat, input: Seq<bool>) -> bool {
    sum_holds_below(column, in_size, input, column.len() as int)
}

/// A sum over one more position holds where the sum below it or the term at
/// it does.
pub proof fn lemma_sum_step(column: Seq<bool>, in_size: nat, input: Seq<bool>, bound: int)
    requires
        0 <= bound,
    ensures
        sum_holds_below(column, in_size, input, bound + 1) == (sum_holds_below(
            column,
            in_size,
            input,
            bound,
        ) || term_holds(column, in_size, input, bound)),
{
    if sum_holds_below(column, in_size, input, bound + 1) {
        let j = choose|j: int|
            0 <= j < bound + 1 && #[trigger] term_holds(column, in_size, input, j);
        if j < bound {
            assert(sum_holds_below(column, in_size, input, bound));
        }
    }
    if sum_holds_below(column, in_size, input, bound) {
        let j = choose|j: int| 0 <= j < bound && #[trigger] term_holds(column, in_size, input, j);
        assert(0 <= j < bound + 1 && term_holds(column, in_size, input, j));
    }
    if term_holds(column, in_size, input, bound) {
        assert(0 <= bound < bound + 1 && term_holds(column, in_size, input, bound));
    }
}

/// A programmable logic array: for each output bit one column of an
/// or-matrix, with one entry for each product term over the inputs but the
/// vacuous one, in the order of the ternary counter. The and-matrix is not
/// stored: the counter reproduces it.
#[derive(Debug)]
pub struct ProgrammableLogicArray {
    in_size: usize,
    or_matrix: Vec<Vec<bool>>,
}

impl Clone for ProgrammableLogicArray {
    fn clone(&self) -> (copy: ProgrammableLogicArray)
        ensures
            copy.spec_in_size() == self.spec_in_size(),
            copy.columns() == self.columns(),
    {
        ProgrammableLogicArray { or_matrix: clone_columns(&self.or_matrix), in_size: self.in_size }
    }
}

impl ProgrammableLogicArray {
    /// The number of input bits.
    pub closed spec fn spec_in_size(&self) -> nat {
        self.in_size as nat
    }

    /// The columns of the or-matrix, one for each output bit.
    pub closed spec fn columns(&self) -> Seq<Seq<bool>> {
        matrix_view(self.or_matrix)
    }

    /// The number of product terms over `in_size` inputs, the vacuous one left
    /// out: the length of each column.
    pub open spec fn spec_or_column_size(in_size: nat) -> int {
        ternary_cardinality(in_size) - 1
    }

    /// The array has `in_size` input bits, `out_size` output bits and no
    /// product term switched on.
    pub open spec fn is_null(&self, in_size: nat, out_size: nat) -> bool {
        &&& self.spec_in_size() == in_size
        &&& self.columns() == null_matrix(out_size, Self::spec_or_column_size(in_size) as nat)
    }

    /// The length of each column of the or-matrix over `in_size` inputs.
    pub fn calculate_or_column_size(in_size: usize) -> (size: usize)
        requires
            ternary_cardinality(in_size as nat) <= usize::MAX,
        ensures
            size == Self::spec_or_column_size(in_size as nat),
    {
        proof {
            lemma_pow_positive(3, in_size as nat);
        }
        power(3, in_size) - 1
    }

    /// The array with no product term switched on.
    pub fn new_null(in_size: usize, out_size: usize) -> (pla: ProgrammableLogicArray)
        requires
            ternary_cardinality(in_size as nat) <= usize::MAX,
        ensures
            pla.wf(),
            pla.is_null(in_size as nat, out_size as nat),
    {
        let or_column_size = ProgrammableLogicArray::calculate_or_column_size(in_size);
        ProgrammableLogicArray {
            in_size: in_size,
            or_matrix: null_columns(out_size, or_column_size),
        }
    }

    /// An array whose entries are drawn at random.
    pub fn new_rand(in_size: usize, out_size: usize) -> (pla: ProgrammableLogicArray)
        requires
            ternary_cardinality(in_size as nat) <= usize::MAX,
        ensures
            pla.wf(),
            pla.spec_in_size() == in_size,
            pla.columns().len() == out_size,
    {
        let or_column_size = ProgrammableLogicArray::calculate_or_column_size(in_size);
        ProgrammableLogicArray {
            in_size: in_size,
            or_matrix: rand_columns(out_size, or_column_size),
        }
    }

    /// The array with no product term switched on, after `num_mutations`
    /// mutations in a row.
    pub fn new_mutated(in_size: usize, out_size: usize, num_mutations: u32) -> (pla:
        ProgrammableLogicArray)
        requires
            ternary_cardinality(in_size as nat) <= usize::MAX,
            num_mutations > 0 ==> out_size > 0 && in_size > 0,
        ensures
            pla.wf(),
            pla.spec_in_size() == in_size,
            pla.columns().len() == out_size,
            exists|null: ProgrammableLogicArray|
                null.is_null(in_size as nat, out_size as nat) && #[trigger] mutated_from(
                    pla,
                    null,
                    num_mutations as nat,
                ),
    {
        let mut pla = ProgrammableLogicArray::new_null(in_size, out_size);
        let ghost null = pla;
        let mut i: u32 = 0;
        while i < num_mutations
            invariant
                i <= num_mutations,
                num_mutations > 0 ==> out_size > 0 && in_size > 0,
                pla.wf(),
                pla.spec_in_size() == in_size,
                pla.columns().len() == out_size,
                mutated_from(pla, null, i as nat),
            decreases num_mutations - i,
        {
            let ghost parent = pla;
            pla.mutate();
            proof {
                lemma_mutated_step(pla, parent, null, i as nat);
            }
            i += 1;
        }
        pla
    }

    /// The text of the first `upto` columns of the or-matrix, each up to
    /// the limit of 32.
    pub open spec fn or_matrix_text(&self, upto: nat) -> Seq<char>
        decreases upto,
    {
        if upto == 0 {
            Seq::<char>::empty()
        } else {
            self.or_matrix_text((upto - 1) as nat) + "or matrix column "@ + decimal(
                (upto - 1) as nat,
            ) + seq![':'] + limited_bits_text(self.columns()[upto - 1], 32)
        }
    }

    /// The text of the or-matrix: one line for each column, up to a limit.
    pub fn print2(&self) -> (text: String)
        ensures
            text@ == self.or_matrix_text(self.columns().len()),
    {
        let max_bitvector_print: usize = 32;
        let mut text = String::new();
        let mut i: usize = 0;
        while i < self.or_matrix.len()
            invariant
                i <= self.or_matrix@.len(),
                self.or_matrix@.len() == self.columns().len(),
                max_bitvector_print == 32,
                text@ == self.or_matrix_text(i as nat),
            decreases self.or_matrix@.len() - i,
        {
            let ghost before = text@;
            proof {
                reveal_strlit("or matrix column ");
            }
            text.push_str("or matrix column ");
            push_decimal(&mut text, i);
            text.push(':');
            let line = print_limited_bitvector(self.or_matrix[i].as_slice(), max_bitvector_print);
            text.push_str(line.as_str());
            assert(self.columns()[i as int] == self.or_matrix@[i as int]@);
            assert(text@ =~= before + "or matrix column "@ + decimal(i as nat) + seq![':']
                + limited_bits_text(self.columns()[i as int], 32));
            i += 1;
        }
        text
    }

    /// Switches one product term of one output on or off.
    pub fn flip(&mut self, chosen_output: usize, chosen_term: usize)
        requires
            old(self).wf(),
            chosen_output < old(self).columns().len(),
            chosen_term < Self::spec_or_column_size(old(self).spec_in_size()),
        ensures
            final(self).wf(),
            final(self).spec_in_size() == old(self).spec_in_size(),
            final(self).columns() == flipped(
                old(self).columns(),
                chosen_output as int,
                chosen_term as int,
            ),
    {
        assert(self.columns()[chosen_output as int].len() == Self::spec_or_column_size(
            self.spec_in_size(),
        ));
        flip_in_columns(&mut self.or_matrix, chosen_output, chosen_term);
    }
}

impl Individual for ProgrammableLogicArray {
    open spec fn wf(&self) -> bool {
        &&& ternary_cardinality(self.spec_in_size()) <= usize::MAX
        &&& forall|i: int|
            0 <= i < self.columns().len() ==> (#[trigger] self.columns()[i]).len()
                == Self::spec_or_column_size(self.spec_in_size())
    }

    open spec fn spec_input_size(&self) -> nat {
        self.spec_in_size()
    }

    open spec fn spec_output_size(&self) -> nat {
        self.columns().len()
    }

    /// Each output is the sum of the products that its column switches on.
    open spec fn spec_calculate_output(&self, input: Seq<bool>) -> Seq<bool> {
        Seq::new(
            self.columns().len(),
            |i: int| sum_of_products(self.columns()[i], self.spec_in_size(), input),
        )
    }

    open spec fn can_mutate(&self) -> bool {
        self.columns().len() > 0 && self.spec_in_size() > 0
    }

    open spec fn mutation_of(&self, parent: &Self) -> bool {
        &&& self.spec_in_size() == parent.spec_in_size()
        &&& one_flip_apart(parent.columns(), self.columns())
    }

    /// One line for each output: its product terms, joined by ` + `.
    open spec fn spec_print(&self) -> Seq<char> {
        function_lines(self.columns(), product_term_at(self.spec_in_size()), self.columns().len())
    }

    fn print(&self) -> (text: String) {
        let out_size = self.or_matrix.len();
        let or_column_size = ProgrammableLogicArray::calculate_or_column_size(self.in_size);
        let mut and_matrix_row = AndPseudoMatrixValue::new_null(self.in_size);
        let ghost in_size = self.spec_in_size();
        let ghost term = product_term_at(in_size);
        proof {
            lemma_null_row_value(in_size);
        }
        if or_column_size > 0 {
            proof {
                lemma_row_not_full(and_matrix_row@);
            }
            // skip the vacuous row
            increment_and_row(&mut and_matrix_row);
        }
        let (mut output_functions, mut first_added) = blank_functions(out_size);
        proof {
            assert forall|i: int| 0 <= i < out_size implies !any_below(
                #[trigger] self.or_matrix@[i]@,
                0,
            ) by {}
        }
        let mut j: usize = 0;
        while j < or_column_size
            invariant
                self.wf(),
                in_size == self.spec_in_size(),
                term == product_term_at(in_size),
                out_size == self.or_matrix@.len(),
                or_column_size == Self::spec_or_column_size(in_size),
                j <= or_column_size,
                and_matrix_row@.len() == in_size,
                j < or_column_size ==> row_value(and_matrix_row@) == j + 1,
                output_functions@.len() == out_size,
                first_added@.len() == out_size,
                forall|i: int|
                    0 <= i < out_size ==> (#[trigger] output_functions@[i])@ == joined_terms(
                        self.or_matrix@[i]@,
                        term,
                        j as nat,
                    ),
                forall|i: int|
                    0 <= i < out_size ==> #[trigger] first_added@[i] == !any_below(
                        self.or_matrix@[i]@,
                        j as int,
                    ),
            decreases or_column_size - j,
        {
            let and_function = and_func_to_str(&and_matrix_row);
            proof {
                lemma_row_of_value(and_matrix_row@);
                assert forall|i: int| 0 <= i < out_size implies j < (
                #[trigger] self.or_matrix@[i])@.len() by {
                    assert(self.columns()[i].len() == or_column_size);
                }
            }
            add_term(
                &mut output_functions,
                &mut first_added,
                &self.or_matrix,
                j,
                &and_function,
                Ghost(term),
            );
            if j < or_column_size - 1 {
                proof {
                    lemma_row_not_full(and_matrix_row@);
                }
                increment_and_row(&mut and_matrix_row);
            }
            j += 1;
        }
        proof {
            assert forall|i: int| 0 <= i < out_size implies (#[trigger] output_functions@[i])@
                == joined_terms(self.columns()[i], term, self.columns()[i].len()) by {
                assert(self.columns()[i].len() == or_column_size);
            }
        }
        assemble_lines(&output_functions, Ghost(self.columns()), Ghost(term))
    }

    fn calculate_output(&self, input: &Vec<bool>) -> (output: Vec<bool>) {
        let or_column_size = ProgrammableLogicArray::calculate_or_column_size(self.in_size);
        let out_size = self.or_matrix.len();
        let mut output = get_null_bitvector(out_size);
        let mut and_matrix_row = AndPseudoMatrixValue::new_null(self.in_size);
        let ghost in_size = self.spec_in_size();
        proof {
            lemma_null_row_value(in_size);
        }
        if or_column_size > 0 {
            proof {
                lemma_row_not_full(and_matrix_row@);
            }
            // skip the vacuous row
            increment_and_row(&mut and_matrix_row);
        }
        let mut j: usize = 0;
        while j < or_column_size
            invariant
                self.wf(),
                in_size == self.spec_in_size(),
                input@.len() == in_size,
                out_size == self.columns().len(),
                or_column_size == Self::spec_or_column_size(in_size),
                j <= or_column_size,
                and_matrix_row@.len() == in_size,
                j < or_column_size ==> row_value(and_matrix_row@) == j + 1,
                output@.len() == out_size,
                forall|i: int|
                    0 <= i < out_size ==> output@[i] == sum_holds_below(
                        #[trigger] self.columns()[i],
                        in_size,
                        input@,
                        j as int,
                    ),
            decreases or_column_size - j,
        {
            let mut i: usize = 0;
            while i < out_size
                invariant
                    self.wf(),
                    in_size == self.spec_in_size(),
                    input@.len() == in_size,
                    out_size == self.columns().len(),
                    or_column_size == Self::spec_or_column_size(in_size),
                    j < or_column_size,
                    and_matrix_row@.len() == in_size,
                    row_value(and_matrix_row@) == j + 1,
                    output@.len() == out_size,
                    i <= out_size,
                    forall|k: int|
                        0 <= k < i ==> output@[k] == sum_holds_below(
                            #[trigger] self.columns()[k],
                            in_size,
                            input@,
                            j + 1,
                        ),
                    forall|k: int|
                        i <= k < out_size ==> output@[k] == sum_holds_below(
                            #[trigger] self.columns()[k],
                            in_size,
                            input@,
                            j as int,
                        ),
                decreases out_size - i,
            {
                proof {
                    lemma_row_not_null(and_matrix_row@);
                    lemma_row_of_value(and_matrix_row@);
                    lemma_sum_step(self.columns()[i as int], in_size, input@, j as int);
                    assert(self.columns()[i as int].len() == or_column_size);
                    assert(self.columns()[i as int] == self.or_matrix@[i as int]@);
                }
                if !output[i] && self.or_matrix[i][j] && compare_and_row(&and_matrix_row, input) {
                    output[i] = true;
                }
                i += 1;
            }
            if j < or_column_size - 1 {
                proof {
                    lemma_row_not_full(and_matrix_row@);
                }
                increment_and_row(&mut and_matrix_row);
            }
            j += 1;
        }
        proof {
            assert forall|i: int| 0 <= i < out_size implies output@[i] == sum_of_products(
                self.columns()[i],
                in_size,
                input@,
            ) by {
                assert(self.columns()[i].len() == or_column_size);
            }
            assert(output@ =~= self.spec_calculate_output(input@));
        }
        output
    }

    fn mutate(&mut self) {
        let chosen_output = draw_below(self.or_matrix.len());
        proof {
            lemma_pow_step(3, (self.spec_in_size() - 1) as nat);
            lemma_pow_positive(3, (self.spec_in_size() - 1) as nat);
            assert(self.columns()[0].len() == Self::spec_or_column_size(self.spec_in_size()));
        }
        let chosen_term = draw_below(self.or_matrix[0].len());
        self.flip(chosen_output, chosen_term);
    }

    fn input_size(&self) -> (size: usize) {
        self.in_size
    }

    fn output_size(&self) -> (size: usize) {
        self.or_matrix.len()
    }

    proof fn lemma_output_size(&self, input: Seq<bool>) {
    }

    proof fn lemma_clone(&self, copy: &Self) {
    }
}

/// The text that opens the description of a fixed reference function.
pub open spec fn binary_label() -> Seq<char> {
    "BinaryIndividual: operation_type: "@
}

/// The text before the number of input bits.
pub open spec fn in_size_label() -> Seq<char> {
    ", in_size: "@
}

/// The text before the number of output bits.
pub open spec fn out_size_label() -> Seq<char> {
    ", out_size: "@
}

/// The text before the number of points of the input space.
pub open spec fn in_cardinality_label() -> Seq<char> {
    ", in_cardinality: "@
}

/// A fixed reference function: one gate applied, bit by bit, to the two halves
/// of its input. It is a target to imitate, never a candidate: it does not
/// mutate.
#[derive(Debug)]
pub struct BinaryIndividual {
    operation_type: BinOp,
    out_size: usize,
    in_cardinality: usize,
}

impl Clone for BinaryIndividual {
    fn clone(&self) -> (copy: BinaryIndividual)
        ensures
            copy == *self,
    {
        BinaryIndividual {
            operation_type: self.operation_type,
            out_size: self.out_size,
            in_cardinality: self.in_cardinality,
        }
    }
}

impl BinaryIndividual {
    /// The operation that the function applies.
    pub closed spec fn spec_operation_type(&self) -> BinOp {
        self.operation_type
    }

    /// The number of output bits: half the number of input bits.
    pub closed spec fn spec_out_size(&self) -> nat {
        self.out_size as nat
    }

    /// The number of points of the input space.
    pub closed spec fn spec_in_cardinality(&self) -> nat {
        self.in_cardinality as nat
    }

    /// The function of the given gate on inputs of the given even length.
    pub fn new(operation_type: BinOp, in_size: usize) -> (bi: BinaryIndividual)
        requires
            in_size % 2 == 0,
            binary_cardinality(in_size as nat) <= usize::MAX,
        ensures
            bi.wf(),
            bi.spec_operation_type() == operation_type,
            bi.spec_input_size() == in_size,
    {
        BinaryIndividual {
            operation_type,
            out_size: in_size / 2,
            in_cardinality: power(2, in_size),
        }
    }

    /// The number of points of the input space.
    pub fn in_cardinality(&self) -> (cardinality: usize)
        requires
            self.wf(),
        ensures
            cardinality == binary_cardinality(self.spec_input_size()),
    {
        self.in_cardinality
    }
}

impl Individual for BinaryIndividual {
    open spec fn wf(&self) -> bool {
        &&& 2 * self.spec_out_size() <= usize::MAX
        &&& self.spec_in_cardinality() == binary_cardinality(2 * self.spec_out_size())
    }

    open spec fn spec_input_size(&self) -> nat {
        2 * self.spec_out_size()
    }

    open spec fn spec_output_size(&self) -> nat {
        self.spec_out_size()
    }

    open spec fn spec_calculate_output(&self, input: Seq<bool>) -> Seq<bool> {
        gate_result(self.spec_operation_type(), input)
    }

    /// The function is fixed.
    open spec fn can_mutate(&self) -> bool {
        false
    }

    open spec fn mutation_of(&self, parent: &Self) -> bool {
        false
    }

    /// The operation and the sizes, on one line.
    open spec fn spec_print(&self) -> Seq<char> {
        (binary_label() + self.spec_operation_type().spec_to_str() + in_size_label() + decimal(
            self.spec_input_size(),
        ) + out_size_label() + decimal(self.spec_output_size()) + in_cardinality_label() + decimal(
            self.spec_in_cardinality(),
        )).push('\n')
    }

    fn print(&self) -> (text: String) {
        let mut text = String::new();
        proof {
            reveal_strlit("BinaryIndividual: operation_type: ");
            reveal_strlit(", in_size: ");
            reveal_strlit(", out_size: ");
            reveal_strlit(", in_cardinality: ");
        }
        text.push_str("BinaryIndividual: operation_type: ");
        text.push_str(self.operation_type.to_str());
        text.push_str(", in_size: ");
        push_decimal(&mut text, self.input_size());
        text.push_str(", out_size: ");
        push_decimal(&mut text, self.output_size());
        text.push_str(", in_cardinality: ");
        push_decimal(&mut text, self.in_cardinality());
        text.push('\n');
        assert(text@ =~= self.spec_print());
        text
    }

    fn calculate_output(&self, input: &Vec<bool>) -> (output: Vec<bool>) {
        calculate_result(&self.operation_type, input)
    }

    fn mutate(&mut self) {
        vstd::pervasive::unreached()
    }

    fn input_size(&self) -> (size: usize) {
        self.out_size * 2
    }

    fn output_size(&self) -> (size: usize) {
        self.out_size
    }

    proof fn lemma_output_size(&self, input: Seq<bool>) {
    }

    proof fn lemma_clone(&self, copy: &Self) {
    }
}

} // verus!
