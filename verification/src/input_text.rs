use vstd::prelude::*;

verus! {

/// The byte stands for a spike value: the digit 0 or the digit 1.
pub open spec fn is_bit(byte: u8) -> bool {
    byte == 48 || byte == 49
}

/// The spike value that a digit stands for.
pub open spec fn bit_of(byte: u8) -> i8 {
    if byte == 49 {
        1
    } else {
        0
    }
}

/// The text cut at every delimiter: one line more than there are
/// delimiters, none of which holds one.
pub open spec fn split(text: Seq<u8>, delimiter: u8) -> Seq<Seq<u8>>
    decreases text.len(),
{
    if text.len() == 0 {
        seq![Seq::empty()]
    } else {
        let before = split(text.drop_last(), delimiter);
        if text.last() == delimiter {
            before.push(Seq::empty())
        } else {
            before.drop_last().push(before.last().push(text.last()))
        }
    }
}

/// The lines that hold something, in order.
pub open spec fn nonempty(lines: Seq<Seq<u8>>) -> Seq<Seq<u8>>
    decreases lines.len(),
{
    if lines.len() == 0 {
        Seq::empty()
    } else {
        let before = nonempty(lines.drop_last());
        if lines.last().len() > 0 {
            before.push(lines.last())
        } else {
            before
        }
    }
}

/// Every byte of the text is a delimiter or stands for a spike value.
pub open spec fn readable(text: Seq<u8>, delimiter: u8) -> bool {
    forall|i: int| 0 <= i < text.len() ==> #[trigger] text[i] == delimiter || is_bit(text[i])
}

/// The spike values that a line of digits stands for.
pub open spec fn values_of(line: Seq<u8>) -> Seq<i8> {
    Seq::new(line.len(), |i: int| bit_of(line[i]))
}

/// The input lines of a text: its non-empty lines.
pub open spec fn input_lines(text: Seq<u8>, delimiter: u8) -> Seq<Seq<u8>> {
    nonempty(split(text, delimiter))
}

/// The lines of a text are never none, and none of them holds a delimiter.
pub proof fn lemma_split_shape(text: Seq<u8>, delimiter: u8)
    ensures
        split(text, delimiter).len() >= 1,
        forall|l: int, i: int|
            0 <= l < split(text, delimiter).len() && 0 <= i < split(text, delimiter)[l].len()
                ==> #[trigger] split(text, delimiter)[l][i] != delimiter,
    decreases text.len(),
{
    if text.len() > 0 {
        lemma_split_shape(text.drop_last(), delimiter);
    }
}

/// The lines put together again, with a delimiter between each two.
pub open spec fn joined(lines: Seq<Seq<u8>>, delimiter: u8) -> Seq<u8>
    decreases lines.len(),
{
    if lines.len() == 0 {
        Seq::empty()
    } else if lines.len() == 1 {
        lines[0]
    } else {
        joined(lines.drop_last(), delimiter).push(delimiter) + lines.last()
    }
}

/// Cutting a text loses nothing: its lines, put together again, are the text.
pub proof fn lemma_split_can_be_joined(text: Seq<u8>, delimiter: u8)
    ensures
        joined(split(text, delimiter), delimiter) == text,
    decreases text.len(),
{
    let lines = split(text, delimiter);
    if text.len() == 0 {
        assert(lines[0] =~= text);
    } else {
        let head = text.drop_last();
        let before = split(head, delimiter);
        lemma_split_can_be_joined(head, delimiter);
        lemma_split_shape(head, delimiter);
        if text.last() == delimiter {
            assert(lines.drop_last() == before);
            assert(joined(lines, delimiter) =~= joined(before, delimiter).push(delimiter));
            assert(head.push(delimiter) =~= text);
        } else {
            let last = before.last().push(text.last());
            assert(lines.last() == last);
            assert(lines.drop_last() == before.drop_last());
            if before.len() == 1 {
                assert(joined(lines, delimiter) == last);
                assert(joined(before, delimiter) == before[0]);
            } else {
                let stem = joined(before.drop_last(), delimiter).push(delimiter);
                assert(joined(lines, delimiter) == stem + last);
                assert(joined(before, delimiter) == stem + before.last());
                assert(stem + last =~= (stem + before.last()).push(text.last()));
            }
            assert(head.push(text.last()) =~= text);
        }
    }
}

/// Every input line holds something, and in a readable text nothing but
/// digits that stand for spike values.
pub proof fn lemma_input_lines_shape(text: Seq<u8>, delimiter: u8)
    requires
        readable(text, delimiter),
    ensures
        forall|l: int|
            0 <= l < input_lines(text, delimiter).len() ==> (#[trigger] input_lines(
                text,
                delimiter,
            )[l]).len() > 0,
        forall|l: int, i: int|
            0 <= l < input_lines(text, delimiter).len() && 0 <= i < input_lines(
                text,
                delimiter,
            )[l].len() ==> is_bit(#[trigger] input_lines(text, delimiter)[l][i]),
{
    lemma_split_holds_digits(text, delimiter);
    lemma_nonempty_keeps(split(text, delimiter));
}

/// In a readable text every line holds nothing but digits.
pub proof fn lemma_split_holds_digits(text: Seq<u8>, delimiter: u8)
    requires
        readable(text, delimiter),
    ensures
        split(text, delimiter).len() >= 1,
        forall|l: int, i: int|
            0 <= l < split(text, delimiter).len() && 0 <= i < split(text, delimiter)[l].len()
                ==> is_bit(#[trigger] split(text, delimiter)[l][i]),
    decreases text.len(),
{
    if text.len() > 0 {
        let head = text.drop_last();
        assert forall|i: int| 0 <= i < head.len() implies #[trigger] head[i] == delimiter || is_bit(
            head[i],
        ) by {
            assert(head[i] == text[i]);
        }
        lemma_split_holds_digits(head, delimiter);
        assert(text.last() == text[text.len() - 1]);
    }
}

/// What is left of the lines is non-empty, and was among them.
pub proof fn lemma_nonempty_keeps(lines: Seq<Seq<u8>>)
    ensures
        forall|l: int| 0 <= l < nonempty(lines).len() ==> (#[trigger] nonempty(lines)[l]).len() > 0,
        forall|l: int| 0 <= l < nonempty(lines).len() ==> lines.contains(#[trigger] nonempty(lines)[l]),
    decreases lines.len(),
{
    if lines.len() > 0 {
        let head = lines.drop_last();
        lemma_nonempty_keeps(head);
        assert forall|l: int| 0 <= l < nonempty(lines).len() implies lines.contains(
            #[trigger] nonempty(lines)[l],
        ) by {
            if l < nonempty(head).len() {
                let line = nonempty(head)[l];
                assert(head.contains(line));
                let k = choose|k: int| 0 <= k < head.len() && head[k] == line;
                assert(lines[k] == line);
            } else {
                assert(lines[lines.len() - 1] == nonempty(lines)[l]);
            }
        }
    }
}

} // verus!
