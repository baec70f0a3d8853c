//! The resources of a node.
use crate::text::{is_white, white};
use vstd::prelude::*;
use vstd::string::*;

verus! {

/// What a node offers.
#[derive(Clone, Copy, Debug, PartialEq, Eq, Structural)]
pub struct NodeResourceSnapshot {
    pub logical_cpu_count: usize,
    pub memory_bytes: usize,
}

/// The end of the line that holds position `i`.
pub open spec fn line_end(s: Seq<char>, i: int) -> int
    decreases s.len() - i,
{
    if i >= s.len() || s[i] == '\n' {
        i
    } else {
        line_end(s, i + 1)
    }
}

/// Whether `prefix` stands at `i`.
pub open spec fn stands_at(s: Seq<char>, i: int, prefix: Seq<char>) -> bool {
    i + prefix.len() <= s.len() && s.subrange(i, i + prefix.len()) == prefix
}

/// The position behind the label of the first line from `i` on that starts with it.
pub open spec fn labelled_line(s: Seq<char>, i: int, label: Seq<char>) -> Option<int>
    decreases s.len() - i,
{
    if i >= s.len() {
        None
    } else if stands_at(s, i, label) {
        Some((i + label.len()) as int)
    } else {
        let end = line_end(s, i);
        if end < i || end >= s.len() {
            None
        } else {
            labelled_line(s, end + 1, label)
        }
    }
}

/// The first position from `i` on, within the line, that is not white space.
pub open spec fn word_start(s: Seq<char>, i: int) -> int
    decreases s.len() - i,
{
    if i >= s.len() || s[i] == '\n' || !is_white(s[i]) {
        i
    } else {
        word_start(s, i + 1)
    }
}

/// The first position from `i` on that is white space.
pub open spec fn word_end(s: Seq<char>, i: int) -> int
    decreases s.len() - i,
{
    if i >= s.len() || is_white(s[i]) {
        i
    } else {
        word_end(s, i + 1)
    }
}

/// The number written by the decimal digits in `i..j`, where there are digits only.
pub open spec fn digits_value(s: Seq<char>, i: int, j: int) -> Option<int>
    decreases j - i,
{
    if j <= i {
        Some(0)
    } else {
        match digits_value(s, i, j - 1) {
            None => None,
            Some(v) => if '0' <= s[j - 1] && s[j - 1] <= '9' {
                Some(10 * v + (s[j - 1] as int - '0' as int))
            } else {
                None
            },
        }
    }
}

/// The unsigned number written in `i..j`: digits, with a plus sign in front where one stands.
pub open spec fn unsigned_number(s: Seq<char>, i: int, j: int) -> Option<int> {
    if j <= i {
        None
    } else if s[i] == '+' {
        if i + 1 < j {
            digits_value(s, i + 1, j)
        } else {
            None
        }
    } else {
        digits_value(s, i, j)
    }
}

/// The bytes of memory that a memory report states: the first number on the first line labelled
/// `MemTotal:`, in units of 1024 bytes.
pub open spec fn total_memory(s: Seq<char>) -> Option<int> {
    match labelled_line(s, 0, "MemTotal:"@) {
        None => None,
        Some(p) => {
            let i = word_start(s, p);
            match unsigned_number(s, i, word_end(s, i)) {
                None => None,
                Some(kib) => if kib * 1024 > usize::MAX {
                    None
                } else {
                    Some(kib * 1024)
                },
            }
        },
    }
}

fn characters(text: &str) -> (chars: Vec<char>)
    ensures
        chars@ == text@,
{
    let mut chars: Vec<char> = Vec::new();
    for c in iter: text.chars()
        invariant
            iter.seq() == text@,
            chars@ == text@.take(iter.index() as int),
    {
        chars.push(c);
        assert(chars@ =~= text@.take(iter.index() as int + 1));
    }
    assert(chars@ =~= text@);
    chars
}

fn matches_at(s: &Vec<char>, i: usize, prefix: &Vec<char>) -> (r: bool)
    requires
        i <= s@.len(),
    ensures
        r == stands_at(s@, i as int, prefix@),
{
    if prefix.len() > s.len() - i {
        return false;
    }
    let mut k: usize = 0;
    while k < prefix.len()
        invariant
            k <= prefix@.len(),
            i + prefix@.len() <= s@.len(),
            forall|x: int| 0 <= x < k ==> s@[i + x] == #[trigger] prefix@[x],
        decreases prefix.len() - k,
    {
        assert(i + k < s.len());
        if s[i + k] != prefix[k] {
            proof {
                let part = s@.subrange(i as int, i + prefix@.len());
                assert(part[k as int] != prefix@[k as int]);
            }
            return false;
        }
        k = k + 1;
    }
    assert(s@.subrange(i as int, i + prefix@.len()) =~= prefix@);
    true
}

proof fn lemma_line_end(s: Seq<char>, i: int)
    requires
        0 <= i <= s.len(),
    ensures
        i <= line_end(s, i) <= s.len(),
    decreases s.len() - i,
{
    if i < s.len() && s[i] != '\n' {
        lemma_line_end(s, i + 1);
    }
}

fn find_line_end(s: &Vec<char>, start: usize) -> (end: usize)
    requires
        start <= s@.len(),
    ensures
        end == line_end(s@, start as int),
        start <= end <= s@.len(),
{
    let mut i: usize = start;
    while i < s.len() && s[i] != '\n'
        invariant
            start <= i <= s@.len(),
            line_end(s@, start as int) == line_end(s@, i as int),
        decreases s.len() - i,
    {
        i = i + 1;
    }
    i
}

fn find_labelled_line(s: &Vec<char>, label: &Vec<char>) -> (found: Option<usize>)
    ensures
        match found {
            Some(p) => p <= s@.len() && labelled_line(s@, 0, label@) == Some(p as int),
            None => labelled_line(s@, 0, label@) is None,
        },
{
    let mut i: usize = 0;
    while i < s.len()
        invariant
            i <= s@.len(),
            labelled_line(s@, 0, label@) == labelled_line(s@, i as int, label@),
        decreases s.len() - i,
    {
        if matches_at(s, i, label) {
            return Some(i + label.len());
        }
        let end: usize = find_line_end(s, i);
        if end == s.len() {
            return None;
        }
        i = end + 1;
    }
    None
}

fn parse_unsigned(s: &Vec<char>, start: usize, end: usize) -> (value: Option<usize>)
    requires
        start <= end <= s@.len(),
    ensures
        match value {
            Some(v) => unsigned_number(s@, start as int, end as int) == Some(v as int),
            None => match unsigned_number(s@, start as int, end as int) {
                Some(v) => v > usize::MAX,
                None => true,
            },
        },
{
    if start >= end {
        return None;
    }
    let first: usize = if s[start] == '+' { start + 1 } else { start };
    if first >= end {
        return None;
    }
    let mut value: usize = 0;
    let mut j: usize = first;
    while j < end
        invariant
            first <= j <= end <= s@.len(),
            digits_value(s@, first as int, j as int) == Some(value as int),
            unsigned_number(s@, start as int, end as int) == digits_value(
                s@,
                first as int,
                end as int,
            ),
        decreases end - j,
    {
        let c: char = s[j];
        if !('0' <= c && c <= '9') {
            proof {
                lemma_not_digits(s@, first as int, j as int, end as int);
            }
            return None;
        }
        let digit: usize = (c as u32 - '0' as u32) as usize;
        proof {
            lemma_digits_grow(s@, first as int, j as int + 1, end as int);
        }
        value =
        match value.checked_mul(10) {
            Some(v) => match v.checked_add(digit) {
                Some(v) => v,
                None => return None,
            },
            None => return None,
        };
        j = j + 1;
    }
    Some(value)
}

proof fn lemma_not_digits(s: Seq<char>, i: int, j: int, end: int)
    requires
        0 <= i <= j < end <= s.len(),
        !('0' <= s[j] && s[j] <= '9'),
    ensures
        digits_value(s, i, end) is None,
    decreases end - j,
{
    if j < end - 1 {
        lemma_not_digits(s, i, j, end - 1);
    }
}

proof fn lemma_digits_grow(s: Seq<char>, i: int, j: int, end: int)
    requires
        i <= j <= end,
    ensures
        digits_value(s, i, end) matches Some(v) ==> (digits_value(s, i, j) matches Some(w) && 0
            <= w <= v),
    decreases end - i,
{
    if j < end {
        lemma_digits_grow(s, i, j, end - 1);
    } else if i < end {
        lemma_digits_grow(s, i, end - 1, end - 1);
    }
}

/// The bytes of memory that a memory report states.
pub fn detect_total_memory_bytes(meminfo: &str) -> (bytes: Option<usize>)
    ensures
        match bytes {
            Some(b) => total_memory(meminfo@) == Some(b as int),
            None => total_memory(meminfo@) is None,
        },
{
    let s: Vec<char> = characters(meminfo);
    let label: Vec<char> = characters("MemTotal:");
    let p: usize = match find_labelled_line(&s, &label) {
        Some(p) => p,
        None => return None,
    };
    let mut i: usize = p;
    while i < s.len() && s[i] != '\n' && white(s[i])
        invariant
            p <= i <= s@.len(),
            word_start(s@, p as int) == word_start(s@, i as int),
        decreases s.len() - i,
    {
        i = i + 1;
    }
    let start: usize = i;
    while i < s.len() && !white(s[i])
        invariant
            start <= i <= s@.len(),
            word_end(s@, start as int) == word_end(s@, i as int),
        decreases s.len() - i,
    {
        i = i + 1;
    }
    match parse_unsigned(&s, start, i) {
        Some(kib) => kib.checked_mul(1024),
        None => None,
    }
}

/// The resources of this machine, where its memory is known; one processor where their number is
/// not.
pub fn local_node_resources(parallelism: Option<usize>, memory_bytes: Option<usize>) -> (result:
    Option<NodeResourceSnapshot>)
    ensures
        result == match memory_bytes {
            Some(bytes) => Some(
                NodeResourceSnapshot {
                    logical_cpu_count: match parallelism {
                        Some(count) => count,
                        None => 1,
                    },
                    memory_bytes: bytes,
                },
            ),
            None => None,
        },
{
    let logical_cpu_count: usize = match parallelism {
        Some(count) => count,
        None => 1,
    };
    match memory_bytes {
        Some(bytes) => Some(NodeResourceSnapshot { logical_cpu_count, memory_bytes: bytes }),
        None => None,
    }
}

/// Whether a line begins at a place.
pub open spec fn begins_line(s: Seq<char>, i: int) -> bool {
    0 <= i < s.len() && (i == 0 || s[i - 1] == '\n')
}

/// The first line that begins with the label is found, wherever it is among the lines.
pub proof fn the_first_labelled_line_counts(s: Seq<char>, label: Seq<char>)
    requires
        label.len() > 0,
    ensures
        match labelled_line(s, 0, label) {
            Some(p) => {
                let line = p - label.len();
                &&& begins_line(s, line)
                &&& p <= s.len() && s.subrange(line, p) == label
                &&& forall|i: int| #[trigger]
                    begins_line(s, i) && i < line ==> !(i + label.len() <= s.len() && s.subrange(
                        i,
                        i + label.len(),
                    ) == label)
            },
            None => forall|i: int| #[trigger]
                begins_line(s, i) ==> !(i + label.len() <= s.len() && s.subrange(
                    i,
                    i + label.len(),
                ) == label),
        },
{
    lemma_labelled_line(s, 0, label);
}

proof fn lemma_labelled_line(s: Seq<char>, from: int, label: Seq<char>)
    requires
        label.len() > 0,
        from == s.len() || from == 0 || begins_line(s, from),
        0 <= from <= s.len(),
    ensures
        match labelled_line(s, from, label) {
            Some(p) => {
                let line = p - label.len();
                &&& from <= line
                &&& begins_line(s, line)
                &&& p <= s.len() && s.subrange(line, p) == label
                &&& forall|i: int| #[trigger]
                    begins_line(s, i) && from <= i < line ==> !(i + label.len() <= s.len()
                        && s.subrange(i, i + label.len()) == label)
            },
            None => forall|i: int| #[trigger]
                begins_line(s, i) && from <= i ==> !(i + label.len() <= s.len() && s.subrange(
                    i,
                    i + label.len(),
                ) == label),
        },
    decreases s.len() - from,
{
    if from < s.len() && !stands_at(s, from, label) {
        lemma_line_end(s, from);
        let end = line_end(s, from);
        lemma_line_holds_no_start(s, from);
        if end < s.len() {
            if end + 1 < s.len() {
                assert(begins_line(s, end + 1));
            }
            lemma_labelled_line(s, end + 1, label);
        }
    }
}

proof fn lemma_line_holds_no_start(s: Seq<char>, from: int)
    requires
        0 <= from <= s.len(),
    ensures
        line_end(s, from) < s.len() ==> s[line_end(s, from)] == '\n',
        forall|i: int| from < i <= line_end(s, from) ==> !#[trigger] begins_line(s, i),
    decreases s.len() - from,
{
    if from < s.len() && s[from] != '\n' {
        lemma_line_holds_no_start(s, from + 1);
        assert(!begins_line(s, from + 1));
    }
}

/// The number of a line begins behind the white space and ends before the next; digits count ten
/// times as much for each digit that follows.
pub proof fn numbers_are_read_between_white_space(s: Seq<char>, i: int)
    requires
        0 <= i <= s.len(),
    ensures
        i <= word_start(s, i) <= s.len(),
        forall|k: int| i <= k < word_start(s, i) ==> is_white(#[trigger] s[k]) && s[k] != '\n',
        word_start(s, i) < s.len() ==> !is_white(s[word_start(s, i)]) || s[word_start(s, i)]
            == '\n',
        i <= word_end(s, i) <= s.len(),
        forall|k: int| i <= k < word_end(s, i) ==> !is_white(#[trigger] s[k]),
        word_end(s, i) < s.len() ==> is_white(s[word_end(s, i)]),
    decreases s.len() - i,
{
    if i < s.len() {
        numbers_are_read_between_white_space(s, i + 1);
    }
}

/// A number that is written in decimal digits is read back.
pub proof fn written_numbers_are_read_back(n: nat)
    ensures
        crate::text::decimal(n).len() > 0,
        digits_value(crate::text::decimal(n), 0, crate::text::decimal(n).len() as int) == Some(
            n as int,
        ),
        unsigned_number(crate::text::decimal(n), 0, crate::text::decimal(n).len() as int) == Some(
            n as int,
        ),
    decreases n,
{
    let text = crate::text::decimal(n);
    let d = (n % 10) as int;
    if n < 10 {
        crate::text::numbers_are_written_digit_by_digit(1, n as int);
        assert(text.len() == 1 && text[0] == (48 + n) as char);
        assert(digits_value(text, 0, 0) == Some(0int));
        assert(digits_value(text, 0, 1) == Some(n as int));
    } else {
        let m = n / 10;
        crate::text::numbers_are_written_digit_by_digit(m, d);
        assert((10 * m + d) as nat == n);
        written_numbers_are_read_back(m);
        let front = crate::text::decimal(m);
        assert(text == front.push((48 + d) as char));
        lemma_digits_of_prefix(front, text, front.len() as int);
        assert(digits_value(text, 0, text.len() as int) == Some(n as int));
        if front[0] == '+' {
            lemma_not_digits(front, 0, 0, front.len() as int);
        }
        assert(text[0] == front[0]);
    }
}

proof fn lemma_digits_of_prefix(front: Seq<char>, text: Seq<char>, k: int)
    requires
        0 <= k <= front.len() <= text.len(),
        forall|i: int| 0 <= i < front.len() ==> front[i] == text[i],
    ensures
        digits_value(front, 0, k) == digits_value(text, 0, k),
    decreases k,
{
    if k > 0 {
        lemma_digits_of_prefix(front, text, k - 1);
    }
}

/// The memory is the number on the labelled line times 1024, where it is a machine number.
pub proof fn memory_is_counted_in_kibibytes(s: Seq<char>)
    ensures
        ({
            match labelled_line(s, 0, "MemTotal:"@) {
                Some(p) => {
                    let start = word_start(s, p);
                    match (unsigned_number(s, start, word_end(s, start)), total_memory(s)) {
                        (Some(n), Some(bytes)) => bytes == 1024 * n && bytes <= usize::MAX,
                        (Some(n), None) => 1024 * n > usize::MAX,
                        (None, found) => found is None,
                    }
                },
                None => total_memory(s) is None,
            }
        }),
{
}

} // verus!
