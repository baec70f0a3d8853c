//! Score-based merging of characters into vocabulary tokens, without a prefix.
//!
//! User-defined pieces are recognised before spaces are escaped. Characters that are in no token
//! stay candidates for merging, and become byte tokens only at the end.
use vstd::prelude::*;
use vstd::utf8::{
    encode_scalar, encode_utf8, last_continuation_byte, leading_byte_width_1,
    leading_byte_width_2, leading_byte_width_3, leading_byte_width_4,
    second_last_continuation_byte, third_last_continuation_byte,
};

verus! {

/// The character that stands for a space in tokens.
pub const ESCAPED_SPACE: char = '\u{2581}';

/// A vocabulary with the scores of its tokens. A score is given by a key that orders like it.
#[derive(Debug)]
pub struct Tokenizer {
    pub vocab: Vec<String>,
    pub vocab_scores: Vec<i64>,
    pub token_to_id: Vec<(String, i32)>,
    pub sentencepiece_user_defined: Vec<i32>,
}

impl Tokenizer {
    /// Every entry of the lookup names a vocabulary token of the same text, and user-defined
    /// tokens are in the vocabulary.
    pub open spec fn wf(&self) -> bool {
        &&& forall|i: int|
            0 <= i < self.token_to_id@.len() ==> {
                let (text, id) = #[trigger] self.token_to_id@[i];
                0 <= id < self.vocab@.len() && self.vocab@[id as int]@ == text@
            }
        &&& forall|i: int|
            0 <= i < self.sentencepiece_user_defined@.len() ==> 0
                <= #[trigger] self.sentencepiece_user_defined@[i] < self.vocab@.len()
    }

    /// The identifier of a token text.
    pub open spec fn id_of(&self, piece: Seq<char>) -> Option<i32> {
        first_entry(self.token_to_id@, piece)
    }

    /// The score key of an identifier: zero where none is stored.
    pub open spec fn score_of(&self, id: i32) -> i64 {
        if 0 <= id < self.vocab_scores@.len() {
            self.vocab_scores@[id as int]
        } else {
            0
        }
    }

    /// The score key of a token text.
    pub open spec fn score(&self, piece: Seq<char>) -> Option<i64> {
        match self.id_of(piece) {
            Some(id) => Some(self.score_of(id)),
            None => None,
        }
    }

    fn find(&self, piece: &Vec<char>) -> (id: Option<i32>)
        ensures
            id == self.id_of(piece@),
    {
        assert(piece@.subrange(0, piece@.len() as int) =~= piece@);
        self.find_range(piece, 0, piece.len())
    }

    fn find_range(&self, text: &Vec<char>, from: usize, to: usize) -> (id: Option<i32>)
        requires
            from <= to <= text@.len(),
        ensures
            id == self.id_of(text@.subrange(from as int, to as int)),
    {
        let ghost piece = text@.subrange(from as int, to as int);
        let mut i: usize = 0;
        assert(self.token_to_id@.skip(0) =~= self.token_to_id@);
        while i < self.token_to_id.len()
            invariant
                from <= to <= text@.len(),
                piece == text@.subrange(from as int, to as int),
                i <= self.token_to_id@.len(),
                self.id_of(piece) == first_entry(self.token_to_id@.skip(i as int), piece),
            decreases self.token_to_id.len() - i,
        {
            let rest = &self.token_to_id[i];
            assert(self.token_to_id@.skip(i as int)[0] == *rest);
            assert(self.token_to_id@.skip(i as int).skip(1) =~= self.token_to_id@.skip(i + 1));
            let (same, len) = starts_at(&rest.0, text, from);
            if same && len == to - from {
                assert(rest.0@ =~= piece);
                return Some(rest.1);
            }
            assert(rest.0@ != piece) by {
                if rest.0@ == piece {
                    assert(text@.subrange(from as int, from + rest.0@.len()) =~= rest.0@);
                }
            }
            i = i + 1;
        }
        None
    }

    fn score_key(&self, id: i32) -> (key: i64)
        ensures
            key == self.score_of(id),
    {
        if id >= 0 && (id as usize) < self.vocab_scores.len() {
            self.vocab_scores[id as usize]
        } else {
            0
        }
    }

    fn range_score(&self, text: &Vec<char>, from: usize, to: usize) -> (key: Option<i64>)
        requires
            from <= to <= text@.len(),
        ensures
            key == self.score(text@.subrange(from as int, to as int)),
    {
        match self.find_range(text, from, to) {
            Some(id) => Some(self.score_key(id)),
            None => None,
        }
    }
}

/// The identifier of the first entry with the given text.
pub open spec fn first_entry(entries: Seq<(String, i32)>, piece: Seq<char>) -> Option<i32>
    decreases entries.len(),
{
    if entries.len() == 0 {
        None
    } else if entries[0].0@ == piece {
        Some(entries[0].1)
    } else {
        first_entry(entries.skip(1), piece)
    }
}

/// Whether the text goes on with the token at a place.
pub open spec fn goes_on_with(text: Seq<char>, at: int, token: Seq<char>) -> bool {
    at + token.len() <= text.len() && text.subrange(at, at + token.len()) == token
}

/// Whether the text goes on with the token at a place, and the length of the token where it does.
fn starts_at(token: &String, text: &Vec<char>, at: usize) -> (result: (bool, usize))
    requires
        at <= text@.len(),
    ensures
        result.0 == goes_on_with(text@, at as int, token@),
        result.0 ==> result.1 == token@.len(),
{
    let mut place: usize = at;
    let ghost n = token@.len();
    for c in iter: token.chars()
        invariant
            iter.seq() == token@,
            n == token@.len(),
            at <= place <= text@.len(),
            place == at + iter.index(),
            forall|i: int| 0 <= i < iter.index() ==> #[trigger] token@[i] == text@[at + i],
    {
        if place >= text.len() || text[place] != c {
            proof {
                let i = iter.index();
                assert(token@[i] == c);
                if goes_on_with(text@, at as int, token@) {
                    assert(text@.subrange(at as int, at + n)[i] == text@[at + i]);
                }
            }
            return (false, 0);
        }
        place = place + 1;
    }
    assert(text@.subrange(at as int, at + n) =~= token@);
    (true, place - at)
}

/// The value of a hexadecimal digit.
pub open spec fn hex_value(c: char) -> Option<int> {
    if '0' <= c <= '9' {
        Some(c as int - '0' as int)
    } else if 'a' <= c <= 'f' {
        Some(c as int - 'a' as int + 10)
    } else if 'A' <= c <= 'F' {
        Some(c as int - 'A' as int + 10)
    } else {
        None
    }
}

fn hex(c: char) -> (value: Option<u8>)
    ensures
        match value {
            Some(v) => hex_value(c) == Some(v as int) && v < 16,
            None => hex_value(c) is None,
        },
{
    let code: u32 = c as u32;
    if '0' <= c && c <= '9' {
        Some((code - 48) as u8)
    } else if 'a' <= c && c <= 'f' {
        Some((code - 97 + 10) as u8)
    } else if 'A' <= c && c <= 'F' {
        Some((code - 65 + 10) as u8)
    } else {
        None
    }
}

/// The byte that a byte token `<0xHH>` stands for. The first digit may be a plus sign.
pub open spec fn token_byte(raw: Seq<char>) -> Option<int> {
    if raw.len() == 6 && raw[0] == '<' && raw[1] == '0' && raw[2] == 'x' && raw[5] == '>' {
        match hex_value(raw[4]) {
            Some(low) => match hex_value(raw[3]) {
                Some(high) => Some(high * 16 + low),
                None => if raw[3] == '+' {
                    Some(low)
                } else {
                    None
                },
            },
            None => None,
        }
    } else {
        None
    }
}

fn text_chars(text: &str) -> (chars: Vec<char>)
    ensures
        chars@ == text@,
{
    let mut chars: Vec<char> = Vec::new();
    for c in iter: text.chars()
        invariant
            iter.seq() == text@,
            chars@ == text@.take(iter.index()),
    {
        chars.push(c);
        assert(chars@ =~= text@.take(iter.index() + 1));
    }
    assert(chars@ =~= text@);
    chars
}

/// The byte that a byte token stands for.
pub fn byte_token(raw: &str) -> (byte: Option<u8>)
    ensures
        match byte {
            Some(b) => token_byte(raw@) == Some(b as int),
            None => token_byte(raw@) is None,
        },
{
    let chars = text_chars(raw);
    if chars.len() != 6 || chars[0] != '<' || chars[1] != '0' || chars[2] != 'x' || chars[5]
        != '>' {
        return None;
    }
    let low: u8 = match hex(chars[4]) {
        Some(low) => low,
        None => return None,
    };
    match hex(chars[3]) {
        Some(high) => Some(high * 16 + low),
        None => if chars[3] == '+' {
            Some(low)
        } else {
            None
        },
    }
}

/// The upper-case hexadecimal digit of a value.
pub open spec fn hex_digit(value: int) -> char {
    if value < 10 {
        ('0' as int + value) as char
    } else {
        ('A' as int + value - 10) as char
    }
}

/// The text of the byte token of a byte.
pub open spec fn byte_text(byte: u8) -> Seq<char> {
    seq!['<', '0', 'x', hex_digit(byte as int / 16), hex_digit(byte as int % 16), '>']
}

fn upper_hex(value: u8) -> (c: char)
    requires
        value < 16,
    ensures
        c == hex_digit(value as int),
{
    if value < 10 {
        (48 + value) as char
    } else {
        (55 + value) as char
    }
}

/// The text of a byte token stands for its byte.
pub proof fn byte_tokens_read_back(byte: u8)
    ensures
        token_byte(byte_text(byte)) == Some(byte as int),
{
    let high = byte as int / 16;
    let low = byte as int % 16;
    assert(0 <= high < 16 && 0 <= low < 16);
    assert(hex_value(hex_digit(high)) == Some(high));
    assert(hex_value(hex_digit(low)) == Some(low));
}

/// A text with its spaces escaped.
pub open spec fn escaped(text: Seq<char>) -> Seq<char> {
    text.map(
        |i: int, c: char|
            if c == ' ' {
                ESCAPED_SPACE
            } else {
                c
            },
    )
}

/// Whether `b` bounds symbols that follow each other from the start to the end of a text.
pub open spec fn bounds(b: Seq<usize>, len: int) -> bool {
    &&& b.len() > 0
    &&& b[0] == 0
    &&& b.last() == len
    &&& forall|i: int, j: int| 0 <= i < j < b.len() ==> #[trigger] b[i] < #[trigger] b[j]
}

/// The score of the token that two neighbouring symbols make.
pub open spec fn pair_score(
    tokenizer: Tokenizer,
    text: Seq<char>,
    b: Seq<usize>,
    i: int,
) -> Option<i64> {
    tokenizer.score(text.subrange(b[i] as int, b[i + 2] as int))
}

/// Whether pair `i` is the one to merge: no pair has a higher score, and none further left has
/// the same.
pub open spec fn is_best(tokenizer: Tokenizer, text: Seq<char>, b: Seq<usize>, i: int) -> bool {
    &&& 0 <= i < b.len() - 2
    &&& pair_score(tokenizer, text, b, i) is Some
    &&& forall|j: int|
        0 <= j < b.len() - 2 ==> (#[trigger] pair_score(tokenizer, text, b, j) matches Some(s)
            ==> {
            let best = pair_score(tokenizer, text, b, i)->Some_0;
            s < best || s == best && i <= j
        })
}

/// The symbols of a text after all merges.
pub open spec fn merged_symbols(tokenizer: Tokenizer, text: Seq<char>, b: Seq<usize>) -> Seq<usize>
    decreases b.len(),
{
    if exists|i: int| #[trigger] is_best(tokenizer, text, b, i) {
        let i = choose|i: int| #[trigger] is_best(tokenizer, text, b, i);
        merged_symbols(tokenizer, text, b.remove(i + 1))
    } else {
        b
    }
}

/// The identifiers of the byte tokens of the first `k` bytes; a byte without a token has none.
pub open spec fn byte_ids(tokenizer: Tokenizer, bytes: Seq<u8>, k: nat) -> Seq<i32>
    decreases k,
{
    if k == 0 {
        Seq::empty()
    } else {
        let before = byte_ids(tokenizer, bytes, (k - 1) as nat);
        match tokenizer.id_of(byte_text(bytes[k - 1])) {
            Some(id) => before.push(id),
            None => before,
        }
    }
}

/// The identifiers of a symbol: its token, or the tokens of its bytes.
pub open spec fn symbol_ids(tokenizer: Tokenizer, symbol: Seq<char>) -> Seq<i32> {
    match tokenizer.id_of(symbol) {
        Some(id) => seq![id],
        None => byte_ids(tokenizer, encode_utf8(symbol), encode_utf8(symbol).len()),
    }
}

/// The identifiers of the first `k` symbols.
pub open spec fn symbols_ids(
    tokenizer: Tokenizer,
    text: Seq<char>,
    b: Seq<usize>,
    k: nat,
) -> Seq<i32>
    decreases k,
{
    if k == 0 {
        Seq::empty()
    } else {
        symbols_ids(tokenizer, text, b, (k - 1) as nat) + symbol_ids(
            tokenizer,
            text.subrange(b[k - 1] as int, b[k as int] as int),
        )
    }
}

/// One symbol for each character.
pub open spec fn single_symbols(len: nat) -> Seq<usize> {
    Seq::new(len + 1, |i: int| i as usize)
}

/// The identifiers of a piece of text.
pub open spec fn piece_ids(tokenizer: Tokenizer, piece: Seq<char>) -> Seq<i32> {
    let text = escaped(piece);
    let b = merged_symbols(tokenizer, text, single_symbols(text.len()));
    symbols_ids(tokenizer, text, b, (b.len() - 1) as nat)
}

/// The scores of all pairs.
pub open spec fn pair_scores(tokenizer: Tokenizer, text: Seq<char>, b: Seq<usize>) -> Seq<
    Option<i64>,
> {
    Seq::new(
        if b.len() >= 2 {
            (b.len() - 2) as nat
        } else {
            0
        },
        |i: int| pair_score(tokenizer, text, b, i),
    )
}

fn best_pair(
    scores: &Vec<Option<i64>>,
    Ghost(tokenizer): Ghost<Tokenizer>,
    Ghost(text): Ghost<Seq<char>>,
    Ghost(b): Ghost<Seq<usize>>,
) -> (best: Option<usize>)
    requires
        scores@ == pair_scores(tokenizer, text, b),
    ensures
        match best {
            Some(i) => is_best(tokenizer, text, b, i as int),
            None => forall|i: int| !#[trigger] is_best(tokenizer, text, b, i),
        },
{
    let mut best: Option<usize> = None;
    let mut i: usize = 0;
    while i < scores.len()
        invariant
            i <= scores@.len(),
            scores@ == pair_scores(tokenizer, text, b),
            match best {
                Some(k) => {
                    &&& k < i
                    &&& scores@[k as int] is Some
                    &&& forall|j: int|
                        0 <= j < i ==> (#[trigger] scores@[j] matches Some(s) ==> s
                            < scores@[k as int]->Some_0 || s == scores@[k as int]->Some_0 && k
                            <= j)
                },
                None => forall|j: int| 0 <= j < i ==> #[trigger] scores@[j] is None,
            },
        decreases scores.len() - i,
    {
        if let Some(score) = scores[i] {
            let better = match best {
                Some(k) => match scores[k] {
                    Some(other) => score > other,
                    None => true,
                },
                None => true,
            };
            if better {
                best = Some(i);
            }
        }
        i = i + 1;
    }
    proof {
        match best {
            Some(k) => {
                assert(scores@[k as int] == pair_score(tokenizer, text, b, k as int));
                assert forall|j: int| 0 <= j < b.len() - 2 implies (#[trigger] pair_score(
                    tokenizer,
                    text,
                    b,
                    j,
                ) matches Some(s) ==> {
                    let top = pair_score(tokenizer, text, b, k as int)->Some_0;
                    s < top || s == top && k <= j
                }) by {
                    assert(scores@[j] == pair_score(tokenizer, text, b, j));
                }
            },
            None => {
                assert forall|j: int| !#[trigger] is_best(tokenizer, text, b, j) by {
                    if 0 <= j < b.len() - 2 {
                        assert(scores@[j] == pair_score(tokenizer, text, b, j));
                    }
                }
            },
        }
    }
    best
}

proof fn lemma_best_is_unique(
    tokenizer: Tokenizer,
    text: Seq<char>,
    b: Seq<usize>,
    i: int,
    j: int,
)
    requires
        is_best(tokenizer, text, b, i),
        is_best(tokenizer, text, b, j),
    ensures
        i == j,
{
    assert(pair_score(tokenizer, text, b, i) is Some);
    assert(pair_score(tokenizer, text, b, j) is Some);
}

/// Merges the symbols of a text.
fn merge_symbols(tokenizer: &Tokenizer, text: &Vec<char>) -> (b: Vec<usize>)
    requires
        text@.len() < usize::MAX,
    ensures
        b@ == merged_symbols(*tokenizer, text@, single_symbols(text@.len())),
        bounds(b@, text@.len() as int),
{
    let mut b: Vec<usize> = Vec::new();
    let mut n: usize = 0;
    while n <= text.len()
        invariant
            n <= text@.len() + 1,
            text@.len() < usize::MAX,
            b@ =~= single_symbols(text@.len()).take(n as int),
        decreases text.len() + 1 - n,
    {
        b.push(n);
        n = n + 1;
    }
    assert(b@ =~= single_symbols(text@.len()));
    let mut scores: Vec<Option<i64>> = Vec::new();
    let mut i: usize = 0;
    while i + 2 < b.len()
        invariant
            b@ == single_symbols(text@.len()),
            b@.len() == text@.len() + 1 <= usize::MAX,
            i == scores@.len(),
            i <= pair_scores(*tokenizer, text@, b@).len(),
            scores@ == pair_scores(*tokenizer, text@, b@).take(i as int),
        decreases b.len() - i,
    {
        scores.push(tokenizer.range_score(text, b[i], b[i + 2]));
        assert(scores@ =~= pair_scores(*tokenizer, text@, b@).take(i + 1));
        i = i + 1;
    }
    assert(scores@ =~= pair_scores(*tokenizer, text@, b@));
    let ghost start = b@;
    loop
        invariant
            bounds(b@, text@.len() as int),
            b@.len() <= usize::MAX,
            scores@ == pair_scores(*tokenizer, text@, b@),
            merged_symbols(*tokenizer, text@, start) == merged_symbols(*tokenizer, text@, b@),
        ensures
            bounds(b@, text@.len() as int),
            merged_symbols(*tokenizer, text@, start) == b@,
        decreases b@.len(),
    {
        match best_pair(&scores, Ghost(*tokenizer), Ghost(text@), Ghost(b@)) {
            None => {
                break;
            },
            Some(at) => {
                let ghost was = b@;
                proof {
                    assert forall|j: int| #[trigger]
                        is_best(*tokenizer, text@, b@, j) implies j == at by {
                        lemma_best_is_unique(*tokenizer, text@, b@, at as int, j);
                    }
                }
                b.remove(at + 1);
                let ghost left = pair_scores(*tokenizer, text@, was);
                scores.remove(at);
                assert(b@ =~= was.remove(at + 1));
                if at > 0 {
                    scores.set(at - 1, tokenizer.range_score(text, b[at - 1], b[at + 1]));
                }
                if at < scores.len() {
                    scores.set(at, tokenizer.range_score(text, b[at], b[at + 2]));
                }
                proof {
                    let now = pair_scores(*tokenizer, text@, b@);
                    assert(now.len() == scores@.len());
                    assert forall|j: int| 0 <= j < now.len() implies scores@[j] == now[j] by {
                        if j < at - 1 {
                            assert(left[j] == now[j]);
                        } else if j > at {
                            assert(left[j + 1] == now[j]);
                        }
                    }
                    assert(scores@ =~= now);
                }
            },
        }
    }
    b
}

fn push_char_bytes(out: &mut Vec<u8>, c: char)
    ensures
        final(out)@ == old(out)@ + encode_scalar(c as u32),
{
    let v: u32 = c as u32;
    if v <= 0x7F {
        out.push((v & 0x7F) as u8);
        assert(out@ =~= old(out)@ + seq![leading_byte_width_1(v)]);
    } else if v <= 0x7FF {
        out.push(0xC0 | ((v >> 6) & 0x1F) as u8);
        out.push(0x80 | (v & 0x3F) as u8);
        assert(out@ =~= old(out)@ + seq![leading_byte_width_2(v), last_continuation_byte(v)]);
    } else if v <= 0xFFFF {
        out.push(0xE0 | ((v >> 12) & 0x0F) as u8);
        out.push(0x80 | ((v >> 6) & 0x3F) as u8);
        out.push(0x80 | (v & 0x3F) as u8);
        assert(out@ =~= old(out)@ + seq![
            leading_byte_width_3(v),
            second_last_continuation_byte(v),
            last_continuation_byte(v),
        ]);
    } else {
        out.push(0xF0 | ((v >> 18) & 0x7) as u8);
        out.push(0x80 | ((v >> 12) & 0x3F) as u8);
        out.push(0x80 | ((v >> 6) & 0x3F) as u8);
        out.push(0x80 | (v & 0x3F) as u8);
        assert(out@ =~= old(out)@ + seq![
            leading_byte_width_4(v),
            third_last_continuation_byte(v),
            second_last_continuation_byte(v),
            last_continuation_byte(v),
        ]);
    }
}

fn utf8_bytes(text: &Vec<char>, from: usize, to: usize) -> (bytes: Vec<u8>)
    requires
        from <= to <= text@.len(),
    ensures
        bytes@ == encode_utf8(text@.subrange(from as int, to as int)),
{
    let mut bytes: Vec<u8> = Vec::new();
    let ghost whole = text@.subrange(from as int, to as int);
    let mut i: usize = from;
    while i < to
        invariant
            from <= i <= to <= text@.len(),
            whole == text@.subrange(from as int, to as int),
            encode_utf8(whole) == bytes@ + encode_utf8(text@.subrange(i as int, to as int)),
        decreases to - i,
    {
        let ghost rest = text@.subrange(i as int, to as int);
        let ghost before = bytes@;
        push_char_bytes(&mut bytes, text[i]);
        proof {
            assert(rest.drop_first() =~= text@.subrange(i + 1, to as int));
            assert(before + (encode_scalar(rest[0] as u32) + encode_utf8(rest.drop_first()))
                =~= bytes@ + encode_utf8(rest.drop_first()));
        }
        i = i + 1;
    }
    assert(text@.subrange(to as int, to as int) =~= Seq::empty());
    assert(bytes@ + encode_utf8(Seq::empty()) =~= bytes@);
    bytes
}

fn push_symbol(
    tokenizer: &Tokenizer,
    text: &Vec<char>,
    from: usize,
    to: usize,
    output: &mut Vec<i32>,
)
    requires
        from <= to <= text@.len(),
    ensures
        final(output)@ == old(output)@ + symbol_ids(
            *tokenizer,
            text@.subrange(from as int, to as int),
        ),
{
    match tokenizer.find_range(text, from, to) {
        Some(id) => {
            output.push(id);
            assert(output@ =~= old(output)@ + seq![id]);
        },
        None => {
            let bytes = utf8_bytes(text, from, to);
            let mut k: usize = 0;
            assert(output@ =~= old(output)@ + byte_ids(*tokenizer, bytes@, 0));
            while k < bytes.len()
                invariant
                    k <= bytes@.len(),
                    output@ == old(output)@ + byte_ids(*tokenizer, bytes@, k as nat),
                decreases bytes.len() - k,
            {
                let byte: u8 = bytes[k];
                let mut name: Vec<char> = Vec::new();
                name.push('<');
                name.push('0');
                name.push('x');
                name.push(upper_hex(byte / 16));
                name.push(upper_hex(byte % 16));
                name.push('>');
                assert(name@ =~= byte_text(byte));
                let ghost before = byte_ids(*tokenizer, bytes@, k as nat);
                if let Some(id) = tokenizer.find(&name) {
                    output.push(id);
                    assert(output@ =~= old(output)@ + before.push(id));
                }
                k = k + 1;
            }
        },
    }
}

/// Appends the identifiers of a piece of text.
pub fn encode_piece(tokenizer: &Tokenizer, text: &Vec<char>, output: &mut Vec<i32>)
    requires
        tokenizer.wf(),
        text@.len() < usize::MAX,
    ensures
        final(output)@ == old(output)@ + piece_ids(*tokenizer, text@),
{
    let mut plain: Vec<char> = Vec::new();
    let mut i: usize = 0;
    while i < text.len()
        invariant
            i <= text@.len(),
            plain@ =~= escaped(text@).take(i as int),
        decreases text.len() - i,
    {
        if text[i] == ' ' {
            plain.push(ESCAPED_SPACE);
        } else {
            plain.push(text[i]);
        }
        i = i + 1;
    }
    assert(plain@ =~= escaped(text@));
    let b = merge_symbols(tokenizer, &plain);
    let mut k: usize = 0;
    assert(output@ =~= old(output)@ + symbols_ids(*tokenizer, plain@, b@, 0));
    while k < b.len() - 1
        invariant
            k <= b@.len() - 1,
            bounds(b@, plain@.len() as int),
            output@ == old(output)@ + symbols_ids(*tokenizer, plain@, b@, k as nat),
        decreases b.len() - k,
    {
        assert(b@[k + 1] <= b@.last());
        push_symbol(tokenizer, &plain, b[k], b[k + 1], output);
        assert(output@ =~= old(output)@ + symbols_ids(*tokenizer, plain@, b@, (k + 1) as nat));
        k = k + 1;
    }
}

/// Whether a user-defined token stands at a place of a text.
pub open spec fn user_token_at(tokenizer: Tokenizer, text: Seq<char>, at: int, id: i32) -> bool {
    let token = tokenizer.vocab@[id as int]@;
    token.len() > 0 && goes_on_with(text, at, token)
}

/// The first user-defined token from the `k`-th on that stands at a place of a text.
pub open spec fn user_token(tokenizer: Tokenizer, text: Seq<char>, at: int, k: int) -> Option<i32>
    decreases tokenizer.sentencepiece_user_defined@.len() - k,
{
    if k >= tokenizer.sentencepiece_user_defined@.len() {
        None
    } else if user_token_at(tokenizer, text, at, tokenizer.sentencepiece_user_defined@[k]) {
        Some(tokenizer.sentencepiece_user_defined@[k])
    } else {
        user_token(tokenizer, text, at, k + 1)
    }
}

/// The identifiers of a text from a place on, where the current piece began at `start`.
pub open spec fn text_ids(tokenizer: Tokenizer, text: Seq<char>, start: int, at: int) -> Seq<i32>
    decreases text.len() - at,
{
    if at >= text.len() {
        piece_ids(tokenizer, text.subrange(start, text.len() as int))
    } else {
        match user_token(tokenizer, text, at, 0) {
            Some(id) => {
                let len = tokenizer.vocab@[id as int]@.len();
                let next = if 0 < len <= text.len() - at {
                    at + len
                } else {
                    at + 1
                };
                piece_ids(tokenizer, text.subrange(start, at)) + seq![id] + text_ids(
                    tokenizer,
                    text,
                    next,
                    next,
                )
            },
            None => text_ids(tokenizer, text, start, at + 1),
        }
    }
}

fn find_user_token(tokenizer: &Tokenizer, text: &Vec<char>, at: usize) -> (found: Option<
    (i32, usize),
>)
    requires
        tokenizer.wf(),
        at <= text@.len(),
    ensures
        match found {
            Some((id, len)) => {
                &&& user_token(*tokenizer, text@, at as int, 0) == Some(id)
                &&& len == tokenizer.vocab@[id as int]@.len()
                &&& 0 < len <= text@.len() - at
            },
            None => user_token(*tokenizer, text@, at as int, 0) is None,
        },
{
    let mut k: usize = 0;
    while k < tokenizer.sentencepiece_user_defined.len()
        invariant
            tokenizer.wf(),
            at <= text@.len(),
            k <= tokenizer.sentencepiece_user_defined@.len(),
            user_token(*tokenizer, text@, at as int, 0) == user_token(
                *tokenizer,
                text@,
                at as int,
                k as int,
            ),
        decreases tokenizer.sentencepiece_user_defined.len() - k,
    {
        let id: i32 = tokenizer.sentencepiece_user_defined[k];
        let (same, len) = starts_at(&tokenizer.vocab[id as usize], text, at);
        if same && len > 0 {
            return Some((id, len));
        }
        k = k + 1;
    }
    None
}

fn copy_chars(text: &Vec<char>, from: usize, to: usize) -> (out: Vec<char>)
    requires
        from <= to <= text@.len(),
    ensures
        out@ == text@.subrange(from as int, to as int),
{
    let mut out: Vec<char> = Vec::new();
    crate::values::append_range(&mut out, text.as_slice(), from, to);
    assert(out@ =~= text@.subrange(from as int, to as int));
    out
}

/// Appends the identifiers of a text: user-defined tokens first of all, and the pieces between
/// them by merging.
pub fn encode_without_prefix(tokenizer: &Tokenizer, text: &str, output: &mut Vec<i32>)
    requires
        tokenizer.wf(),
        text@.len() < usize::MAX,
    ensures
        final(output)@ == old(output)@ + text_ids(*tokenizer, text@, 0, 0),
{
    let chars = text_chars(text);
    let mut start: usize = 0;
    let mut at: usize = 0;
    while at < chars.len()
        invariant
            tokenizer.wf(),
            chars@.len() < usize::MAX,
            start <= at <= chars@.len(),
            old(output)@ + text_ids(*tokenizer, chars@, 0, 0) == output@ + text_ids(
                *tokenizer,
                chars@,
                start as int,
                at as int,
            ),
        decreases chars.len() - at,
    {
        match find_user_token(tokenizer, &chars, at) {
            Some((id, len)) => {
                let ghost before = output@;
                let ghost piece = piece_ids(*tokenizer, chars@.subrange(start as int, at as int));
                let ghost rest = text_ids(*tokenizer, chars@, at + len, at + len);
                let part = copy_chars(&chars, start, at);
                encode_piece(tokenizer, &part, output);
                output.push(id);
                assert(before + (piece + seq![id] + rest) =~= output@ + rest);
                at = at + len;
                start = at;
            },
            None => {
                at = at + 1;
            },
        }
    }
    let part = copy_chars(&chars, start, chars.len());
    encode_piece(tokenizer, &part, output);
}

proof fn lemma_some_best(tokenizer: Tokenizer, text: Seq<char>, b: Seq<usize>, k: int) -> (best: int)
    requires
        0 <= k <= b.len() - 2,
        exists|j: int| 0 <= j < k && #[trigger] pair_score(tokenizer, text, b, j) is Some,
    ensures
        0 <= best < k,
        pair_score(tokenizer, text, b, best) is Some,
        forall|j: int|
            0 <= j < k ==> (#[trigger] pair_score(tokenizer, text, b, j) matches Some(s) ==> {
                let top = pair_score(tokenizer, text, b, best)->Some_0;
                s < top || s == top && best <= j
            }),
    decreases k,
{
    let last = pair_score(tokenizer, text, b, k - 1);
    if exists|j: int| 0 <= j < k - 1 && #[trigger] pair_score(tokenizer, text, b, j) is Some {
        let before = lemma_some_best(tokenizer, text, b, k - 1);
        match last {
            Some(s) => if s > pair_score(tokenizer, text, b, before)->Some_0 {
                k - 1
            } else {
                before
            },
            None => before,
        }
    } else {
        k - 1
    }
}

/// The merged symbols still cover the text from start to end, and no two neighbours make a token:
/// merging stops only where nothing is left to merge.
pub proof fn merging_is_exhaustive(tokenizer: Tokenizer, text: Seq<char>, b: Seq<usize>)
    requires
        bounds(b, text.len() as int),
    ensures
        bounds(merged_symbols(tokenizer, text, b), text.len() as int),
        forall|i: int|
            0 <= i < merged_symbols(tokenizer, text, b).len() - 2 ==> #[trigger] pair_score(
                tokenizer,
                text,
                merged_symbols(tokenizer, text, b),
                i,
            ) is None,
    decreases b.len(),
{
    if exists|i: int| #[trigger] is_best(tokenizer, text, b, i) {
        let i = choose|i: int| #[trigger] is_best(tokenizer, text, b, i);
        let next = b.remove(i + 1);
        assert(bounds(next, text.len() as int));
        merging_is_exhaustive(tokenizer, text, next);
    } else {
        assert forall|i: int| 0 <= i < b.len() - 2 implies #[trigger] pair_score(
            tokenizer,
            text,
            b,
            i,
        ) is None by {
            if pair_score(tokenizer, text, b, i) is Some {
                let best = lemma_some_best(tokenizer, text, b, b.len() - 2);
                assert(is_best(tokenizer, text, b, best));
            }
        }
    }
}

/// Whether symbol `k` of a text is a single character or a token.
pub open spec fn whole_symbol(
    tokenizer: Tokenizer,
    text: Seq<char>,
    b: Seq<usize>,
    k: int,
) -> bool {
    b[k + 1] == b[k] + 1 || tokenizer.id_of(text.subrange(b[k] as int, b[k + 1] as int)) is Some
}

proof fn lemma_symbols_stay_whole(tokenizer: Tokenizer, text: Seq<char>, b: Seq<usize>)
    requires
        bounds(b, text.len() as int),
        forall|k: int| 0 <= k < b.len() - 1 ==> #[trigger] whole_symbol(tokenizer, text, b, k),
    ensures
        forall|k: int|
            0 <= k < merged_symbols(tokenizer, text, b).len() - 1 ==> #[trigger] whole_symbol(
                tokenizer,
                text,
                merged_symbols(tokenizer, text, b),
                k,
            ),
    decreases b.len(),
{
    if exists|i: int| #[trigger] is_best(tokenizer, text, b, i) {
        let i = choose|i: int| #[trigger] is_best(tokenizer, text, b, i);
        let next = b.remove(i + 1);
        assert(bounds(next, text.len() as int));
        assert forall|k: int| 0 <= k < next.len() - 1 implies #[trigger] whole_symbol(
            tokenizer,
            text,
            next,
            k,
        ) by {
            if k < i {
                assert(whole_symbol(tokenizer, text, b, k));
            } else if k > i {
                assert(whole_symbol(tokenizer, text, b, k + 1));
            } else {
                assert(next[k] == b[i] && next[k + 1] == b[i + 2]);
            }
        }
        lemma_symbols_stay_whole(tokenizer, text, next);
        assert(merged_symbols(tokenizer, text, b) == merged_symbols(tokenizer, text, next));
    } else {
        assert(merged_symbols(tokenizer, text, b) == b);
    }
}

/// What a piece is merged into: symbols that cover it from start to end, each a single character
/// or a token, of which no two neighbours make a token.
pub proof fn merged_symbols_are_tokens_or_characters(tokenizer: Tokenizer, piece: Seq<char>)
    requires
        piece.len() < usize::MAX,
    ensures
        ({
            let text = escaped(piece);
            let b = merged_symbols(tokenizer, text, single_symbols(text.len()));
            &&& bounds(b, text.len() as int)
            &&& forall|k: int|
                0 <= k < b.len() - 1 ==> #[trigger] whole_symbol(tokenizer, text, b, k)
            &&& forall|k: int|
                0 <= k < b.len() - 2 ==> tokenizer.id_of(
                    text.subrange(#[trigger] b[k] as int, b[k + 2] as int),
                ) is None
        }),
{
    let text = escaped(piece);
    let single = single_symbols(text.len());
    assert(bounds(single, text.len() as int));
    merging_is_exhaustive(tokenizer, text, single);
    lemma_symbols_stay_whole(tokenizer, text, single);
    let b = merged_symbols(tokenizer, text, single);
    assert forall|k: int| 0 <= k < b.len() - 2 implies tokenizer.id_of(
        text.subrange(#[trigger] b[k] as int, b[k + 2] as int),
    ) is None by {
        assert(pair_score(tokenizer, text, b, k) is None);
    }
}

/// The texts of tokens behind each other.
pub open spec fn spelled(tokenizer: Tokenizer, ids: Seq<i32>) -> Seq<char>
    decreases ids.len(),
{
    if ids.len() == 0 {
        Seq::empty()
    } else {
        spelled(tokenizer, ids.drop_last()) + tokenizer.vocab@[ids.last() as int]@
    }
}

/// Whether each of the symbols that a text is merged into is a token.
pub open spec fn all_known(tokenizer: Tokenizer, text: Seq<char>, b: Seq<usize>) -> bool {
    forall|k: int|
        0 <= k < b.len() - 1 ==> tokenizer.id_of(
            text.subrange(#[trigger] b[k] as int, b[k + 1] as int),
        ) is Some
}

proof fn lemma_entry_names_its_text(
    tokenizer: Tokenizer,
    entries: Seq<(String, i32)>,
    piece: Seq<char>,
)
    requires
        tokenizer.wf(),
        forall|i: int|
            0 <= i < entries.len() ==> tokenizer.token_to_id@.contains(#[trigger] entries[i]),
    ensures
        first_entry(entries, piece) matches Some(id) ==> tokenizer.vocab@[id as int]@ == piece,
    decreases entries.len(),
{
    if entries.len() > 0 {
        if entries[0].0@ == piece {
            let i = choose|i: int|
                0 <= i < tokenizer.token_to_id@.len() && tokenizer.token_to_id@[i] == entries[0];
            assert(tokenizer.token_to_id@[i] == entries[0]);
        } else {
            let rest = entries.skip(1);
            assert forall|i: int| 0 <= i < rest.len() implies tokenizer.token_to_id@.contains(
                #[trigger] rest[i],
            ) by {
                assert(tokenizer.token_to_id@.contains(entries[i + 1]));
            }
            lemma_entry_names_its_text(tokenizer, rest, piece);
        }
    }
}

proof fn lemma_symbols_spell(tokenizer: Tokenizer, text: Seq<char>, b: Seq<usize>, k: nat)
    requires
        tokenizer.wf(),
        bounds(b, text.len() as int),
        all_known(tokenizer, text, b),
        k < b.len(),
    ensures
        spelled(tokenizer, symbols_ids(tokenizer, text, b, k)) == text.take(b[k as int] as int),
    decreases k,
{
    assert(b[k as int] <= b.last());
    if k == 0 {
        assert(text.take(0) =~= Seq::empty());
    } else {
        let before = (k - 1) as nat;
        lemma_symbols_spell(tokenizer, text, b, before);
        let from = b[k - 1] as int;
        let to = b[k as int] as int;
        assert(from < to);
        let symbol = text.subrange(from, to);
        assert(tokenizer.id_of(symbol) is Some);
        lemma_entry_names_its_text(tokenizer, tokenizer.token_to_id@, symbol);
        let id = tokenizer.id_of(symbol)->Some_0;
        let ids = symbols_ids(tokenizer, text, b, k);
        assert(ids =~= symbols_ids(tokenizer, text, b, before).push(id));
        assert(ids.drop_last() =~= symbols_ids(tokenizer, text, b, before));
        assert(text.take(from) + symbol =~= text.take(to));
    }
}

/// Nothing is lost where every merged symbol is a token: the tokens of a piece spell it, with its
/// spaces escaped.
pub proof fn tokens_spell_the_piece(tokenizer: Tokenizer, piece: Seq<char>)
    requires
        tokenizer.wf(),
        piece.len() < usize::MAX,
        all_known(
            tokenizer,
            escaped(piece),
            merged_symbols(tokenizer, escaped(piece), single_symbols(piece.len())),
        ),
    ensures
        spelled(tokenizer, piece_ids(tokenizer, piece)) == escaped(piece),
{
    let text = escaped(piece);
    let single = single_symbols(text.len());
    assert(bounds(single, text.len() as int));
    merging_is_exhaustive(tokenizer, text, single);
    let b = merged_symbols(tokenizer, text, single);
    lemma_symbols_spell(tokenizer, text, b, (b.len() - 1) as nat);
    assert(text.take(text.len() as int) =~= text);
}

/// Pairs merge by their scores: of all pairs of neighbours that make a token, the one with the
/// highest score merges next, the leftmost of those where several have it.
pub proof fn the_best_pair_merges_next(
    tokenizer: Tokenizer,
    text: Seq<char>,
    b: Seq<usize>,
    i: int,
    id: i32,
    score: i64,
)
    requires
        0 <= i < b.len() - 2,
        tokenizer.id_of(text.subrange(b[i] as int, b[i + 2] as int)) == Some(id),
        score == if 0 <= id < tokenizer.vocab_scores@.len() {
            tokenizer.vocab_scores@[id as int]
        } else {
            0
        },
        forall|j: int|
            0 <= j < b.len() - 2 ==> (tokenizer.id_of(
                text.subrange(#[trigger] b[j] as int, b[j + 2] as int),
            ) matches Some(other) ==> {
                let s = if 0 <= other < tokenizer.vocab_scores@.len() {
                    tokenizer.vocab_scores@[other as int]
                } else {
                    0
                };
                s < score || s == score && i <= j
            }),
    ensures
        merged_symbols(tokenizer, text, b) == merged_symbols(tokenizer, text, b.remove(i + 1)),
{
    assert forall|j: int| 0 <= j < b.len() - 2 implies (#[trigger] pair_score(
        tokenizer,
        text,
        b,
        j,
    ) matches Some(s) ==> s < score || s == score && i <= j) by {
        assert(b[j] == b[j]);
    }
    assert(pair_score(tokenizer, text, b, i) == Some(score));
    assert(is_best(tokenizer, text, b, i));
    let k = choose|k: int| #[trigger] is_best(tokenizer, text, b, k);
    lemma_best_is_unique(tokenizer, text, b, i, k);
}

/// A user-defined token in a text: where it starts and ends.
pub struct UserPiece {
    pub start: int,
    pub end: int,
    pub id: i32,
}

/// Whether a place lies within one of the pieces.
pub open spec fn within(pieces: Seq<UserPiece>, i: int) -> bool {
    exists|a: int| 0 <= a < pieces.len() && (#[trigger] pieces[a]).start <= i < pieces[a].end
}

/// Whether the text goes on at a place with the `k`-th user-defined token, and the token is not
/// empty.
pub open spec fn user_defined_at(tokenizer: Tokenizer, text: Seq<char>, i: int, k: int) -> bool {
    let token = tokenizer.vocab@[tokenizer.sentencepiece_user_defined@[k] as int]@;
    token.len() > 0 && i + token.len() <= text.len() && text.subrange(i, i + token.len()) == token
}

/// Whether a piece is the first token of the list of user-defined tokens that its place goes on
/// with.
pub open spec fn first_of_list(tokenizer: Tokenizer, text: Seq<char>, piece: UserPiece) -> bool {
    exists|k: int|
        {
            &&& 0 <= k < tokenizer.sentencepiece_user_defined@.len()
            &&& tokenizer.sentencepiece_user_defined@[k] == piece.id
            &&& #[trigger] user_defined_at(tokenizer, text, piece.start, k)
            &&& forall|j: int|
                0 <= j < k ==> !#[trigger] user_defined_at(tokenizer, text, piece.start, j)
        }
}

/// Whether the pieces are the user-defined tokens of a text from `from` on, read from left to
/// right: each is one of them, they do not overlap, none is passed over, and where several start
/// at a place it is the one that comes first in the list.
pub open spec fn user_pieces(
    tokenizer: Tokenizer,
    text: Seq<char>,
    pieces: Seq<UserPiece>,
    from: int,
) -> bool {
    &&& forall|a: int|
        0 <= a < pieces.len() ==> {
            let piece = #[trigger] pieces[a];
            &&& from <= piece.start < piece.end <= text.len()
            &&& 0 <= piece.id < tokenizer.vocab@.len()
            &&& text.subrange(piece.start, piece.end) == tokenizer.vocab@[piece.id as int]@
        }
    &&& forall|a: int, b: int|
        0 <= a < b < pieces.len() ==> (#[trigger] pieces[a]).end <= (#[trigger] pieces[b]).start
    &&& forall|i: int, k: int|
        from <= i < text.len() && 0 <= k < tokenizer.sentencepiece_user_defined@.len() && !within(
            pieces,
            i,
        ) ==> !#[trigger] user_defined_at(tokenizer, text, i, k)
    &&& forall|a: int|
        0 <= a < pieces.len() ==> first_of_list(tokenizer, text, #[trigger] pieces[a])
}

/// The identifiers of the pieces and of what lies between and around them.
pub open spec fn ids_around(
    tokenizer: Tokenizer,
    text: Seq<char>,
    pieces: Seq<UserPiece>,
    from: int,
) -> Seq<i32>
    decreases pieces.len(),
{
    if pieces.len() == 0 {
        piece_ids(tokenizer, text.subrange(from, text.len() as int))
    } else {
        piece_ids(tokenizer, text.subrange(from, pieces[0].start)) + seq![pieces[0].id]
            + ids_around(tokenizer, text, pieces.skip(1), pieces[0].end)
    }
}

proof fn lemma_user_token(tokenizer: Tokenizer, text: Seq<char>, at: int, k: int)
    requires
        0 <= k <= tokenizer.sentencepiece_user_defined@.len(),
    ensures
        match user_token(tokenizer, text, at, k) {
            Some(id) => exists|j: int|
                {
                    &&& k <= j < tokenizer.sentencepiece_user_defined@.len()
                    &&& tokenizer.sentencepiece_user_defined@[j] == id
                    &&& #[trigger] user_defined_at(tokenizer, text, at, j)
                    &&& forall|i: int|
                        k <= i < j ==> !#[trigger] user_defined_at(tokenizer, text, at, i)
                },
            None => forall|j: int|
                k <= j < tokenizer.sentencepiece_user_defined@.len() ==> !#[trigger] user_defined_at(
                    tokenizer,
                    text,
                    at,
                    j,
                ),
        },
    decreases tokenizer.sentencepiece_user_defined@.len() - k,
{
    if k < tokenizer.sentencepiece_user_defined@.len() {
        let here = user_defined_at(tokenizer, text, at, k);
        assert(here == user_token_at(
            tokenizer,
            text,
            at,
            tokenizer.sentencepiece_user_defined@[k],
        ));
        if !here {
            lemma_user_token(tokenizer, text, at, k + 1);
        }
    }
}

proof fn lemma_text_is_cut(tokenizer: Tokenizer, text: Seq<char>, start: int, at: int) -> (pieces:
    Seq<UserPiece>)
    requires
        tokenizer.wf(),
        0 <= start <= at <= text.len(),
        forall|i: int, k: int|
            start <= i < at && 0 <= k < tokenizer.sentencepiece_user_defined@.len()
                ==> !#[trigger] user_defined_at(tokenizer, text, i, k),
    ensures
        user_pieces(tokenizer, text, pieces, start),
        forall|a: int| 0 <= a < pieces.len() ==> at <= (#[trigger] pieces[a]).start,
        text_ids(tokenizer, text, start, at) == ids_around(tokenizer, text, pieces, start),
    decreases text.len() - at,
{
    if at >= text.len() {
        Seq::empty()
    } else {
        lemma_user_token(tokenizer, text, at, 0);
        match user_token(tokenizer, text, at, 0) {
            None => lemma_text_is_cut(tokenizer, text, start, at + 1),
            Some(id) => {
                let n = choose|j: int|
                    {
                        &&& 0 <= j < tokenizer.sentencepiece_user_defined@.len()
                        &&& tokenizer.sentencepiece_user_defined@[j] == id
                        &&& #[trigger] user_defined_at(tokenizer, text, at, j)
                        &&& forall|i: int|
                            0 <= i < j ==> !#[trigger] user_defined_at(tokenizer, text, at, i)
                    };
                let next = at + tokenizer.vocab@[id as int]@.len();
                let rest = lemma_text_is_cut(tokenizer, text, next, next);
                let piece = UserPiece { start: at, end: next, id };
                let pieces = seq![piece] + rest;
                assert(pieces.skip(1) =~= rest);
                assert(pieces[0] == piece);
                assert forall|a: int| 1 <= a < pieces.len() implies #[trigger] pieces[a] == rest[a
                    - 1] by {}
                assert(0 <= id < tokenizer.vocab@.len());
                assert forall|a: int| 0 <= a < pieces.len() implies ({
                    let piece = #[trigger] pieces[a];
                    &&& start <= piece.start < piece.end <= text.len()
                    &&& 0 <= piece.id < tokenizer.vocab@.len()
                    &&& text.subrange(piece.start, piece.end)
                        == tokenizer.vocab@[piece.id as int]@
                }) by {
                    if a > 0 {
                        assert(pieces[a] == rest[a - 1]);
                    }
                }
                assert forall|a: int, b: int| 0 <= a < b < pieces.len() implies (
                #[trigger] pieces[a]).end <= (#[trigger] pieces[b]).start by {
                    assert(pieces[b] == rest[b - 1]);
                    if a > 0 {
                        assert(pieces[a] == rest[a - 1]);
                    }
                }
                assert forall|i: int, k: int|
                    start <= i < text.len() && 0 <= k
                        < tokenizer.sentencepiece_user_defined@.len() && !within(
                        pieces,
                        i,
                    ) implies !#[trigger] user_defined_at(tokenizer, text, i, k) by {
                    if i >= at {
                        assert(!(pieces[0].start <= i < pieces[0].end));
                        if within(rest, i) {
                            let a = choose|a: int|
                                0 <= a < rest.len() && (#[trigger] rest[a]).start <= i
                                    < rest[a].end;
                            assert(pieces[a + 1] == rest[a]);
                        }
                        assert(!within(rest, i));
                    }
                }
                assert forall|a: int| 0 <= a < pieces.len() implies first_of_list(
                    tokenizer,
                    text,
                    #[trigger] pieces[a],
                ) by {
                    if a == 0 {
                        assert(user_defined_at(tokenizer, text, pieces[0].start, n));
                    } else {
                        assert(pieces[a] == rest[a - 1]);
                    }
                }
                pieces
            },
        }
    }
}

/// A text is cut at its user-defined tokens, and nothing of it is left out: its identifiers are
/// those of the tokens and, between and around them, those of the pieces of text there.
pub proof fn a_text_is_cut_at_user_pieces(tokenizer: Tokenizer, text: Seq<char>)
    requires
        tokenizer.wf(),
    ensures
        exists|pieces: Seq<UserPiece>| #[trigger]
            user_pieces(tokenizer, text, pieces, 0) && text_ids(tokenizer, text, 0, 0)
                == ids_around(tokenizer, text, pieces, 0),
{
    let pieces = lemma_text_is_cut(tokenizer, text, 0, 0);
}

/// A text with the spaces outside the pieces escaped.
pub open spec fn escaped_outside(text: Seq<char>, pieces: Seq<UserPiece>) -> Seq<char> {
    Seq::new(
        text.len(),
        |i: int|
            if text[i] == ' ' && !within(pieces, i) {
                '\u{2581}'
            } else {
                text[i]
            },
    )
}

proof fn lemma_outside_of_rest(text: Seq<char>, pieces: Seq<UserPiece>, from: int)
    requires
        pieces.len() > 0,
        0 <= from <= pieces[0].start < pieces[0].end <= text.len(),
        forall|a: int, b: int|
            0 <= a < b < pieces.len() ==> (#[trigger] pieces[a]).end <= (
            #[trigger] pieces[b]).start,
    ensures
        ({
            let all = escaped_outside(text, pieces);
            let rest = escaped_outside(text, pieces.skip(1));
            &&& all.subrange(from, pieces[0].start) == escaped(
                text.subrange(from, pieces[0].start),
            )
            &&& all.subrange(pieces[0].start, pieces[0].end) == text.subrange(
                pieces[0].start,
                pieces[0].end,
            )
            &&& all.subrange(pieces[0].end, text.len() as int) == rest.subrange(
                pieces[0].end,
                text.len() as int,
            )
            &&& all.subrange(from, text.len() as int) == all.subrange(from, pieces[0].start)
                + all.subrange(pieces[0].start, pieces[0].end) + all.subrange(
                pieces[0].end,
                text.len() as int,
            )
        }),
{
    let all = escaped_outside(text, pieces);
    let tail = pieces.skip(1);
    let rest = escaped_outside(text, tail);
    assert forall|i: int| from <= i < pieces[0].start implies !within(pieces, i) by {
        assert forall|a: int| 0 <= a < pieces.len() implies !((#[trigger] pieces[a]).start <= i
            < pieces[a].end) by {
            if a > 0 {
                assert(pieces[0].end <= pieces[a].start);
            }
        }
    }
    assert forall|i: int| pieces[0].start <= i < pieces[0].end implies within(pieces, i) by {
        assert(pieces[0].start <= i < pieces[0].end);
    }
    assert forall|i: int| pieces[0].end <= i < text.len() implies within(pieces, i) == within(
        tail,
        i,
    ) by {
        if within(pieces, i) {
            let a = choose|a: int|
                0 <= a < pieces.len() && (#[trigger] pieces[a]).start <= i < pieces[a].end;
            assert(tail[a - 1] == pieces[a]);
        }
        if within(tail, i) {
            let a = choose|a: int|
                0 <= a < tail.len() && (#[trigger] tail[a]).start <= i < tail[a].end;
            assert(pieces[a + 1] == tail[a]);
        }
    }
    assert(all.subrange(from, pieces[0].start) =~= escaped(text.subrange(from, pieces[0].start)));
    assert(all.subrange(pieces[0].start, pieces[0].end) =~= text.subrange(
        pieces[0].start,
        pieces[0].end,
    ));
    assert(all.subrange(pieces[0].end, text.len() as int) =~= rest.subrange(
        pieces[0].end,
        text.len() as int,
    ));
    assert(all.subrange(from, text.len() as int) =~= all.subrange(from, pieces[0].start)
        + all.subrange(pieces[0].start, pieces[0].end) + all.subrange(
        pieces[0].end,
        text.len() as int,
    ));
}

proof fn lemma_spelled_add(tokenizer: Tokenizer, a: Seq<i32>, b: Seq<i32>)
    ensures
        spelled(tokenizer, a + b) == spelled(tokenizer, a) + spelled(tokenizer, b),
    decreases b.len(),
{
    if b.len() == 0 {
        assert(a + b =~= a);
        assert(spelled(tokenizer, a) + spelled(tokenizer, b) =~= spelled(tokenizer, a));
    } else {
        lemma_spelled_add(tokenizer, a, b.drop_last());
        assert((a + b).drop_last() =~= a + b.drop_last());
        assert((a + b).last() == b.last());
        assert(spelled(tokenizer, a + b) =~= spelled(tokenizer, a) + spelled(tokenizer, b));
    }
}

/// Whether each character of a text is a token, a space as its escape.
pub open spec fn characters_known(tokenizer: Tokenizer, text: Seq<char>) -> bool {
    forall|i: int|
        0 <= i < text.len() ==> tokenizer.id_of(
            seq![
                if #[trigger] text[i] == ' ' {
                    '\u{2581}'
                } else {
                    text[i]
                },
            ],
        ) is Some
}

proof fn lemma_known_piece(tokenizer: Tokenizer, piece: Seq<char>)
    requires
        tokenizer.wf(),
        piece.len() < usize::MAX,
        characters_known(tokenizer, piece),
    ensures
        spelled(tokenizer, piece_ids(tokenizer, piece)) == escaped(piece),
{
    merged_symbols_are_tokens_or_characters(tokenizer, piece);
    let text = escaped(piece);
    let b = merged_symbols(tokenizer, text, single_symbols(text.len()));
    assert forall|k: int| 0 <= k < b.len() - 1 implies tokenizer.id_of(
        text.subrange(#[trigger] b[k] as int, b[k + 1] as int),
    ) is Some by {
        assert(whole_symbol(tokenizer, text, b, k));
        if b[k + 1] == b[k] + 1 {
            assert(b[k + 1] <= b.last());
            let c = piece[b[k] as int];
            assert(text.subrange(b[k] as int, b[k + 1] as int) =~= seq![text[b[k] as int]]);
        }
    }
    tokens_spell_the_piece(tokenizer, piece);
}

proof fn lemma_pieces_spell(
    tokenizer: Tokenizer,
    text: Seq<char>,
    pieces: Seq<UserPiece>,
    from: int,
)
    requires
        tokenizer.wf(),
        text.len() < usize::MAX,
        characters_known(tokenizer, text),
        0 <= from <= text.len(),
        forall|a: int|
            0 <= a < pieces.len() ==> {
                let piece = #[trigger] pieces[a];
                &&& from <= piece.start < piece.end <= text.len()
                &&& 0 <= piece.id < tokenizer.vocab@.len()
                &&& text.subrange(piece.start, piece.end) == tokenizer.vocab@[piece.id as int]@
            },
        forall|a: int, b: int|
            0 <= a < b < pieces.len() ==> (#[trigger] pieces[a]).end <= (
            #[trigger] pieces[b]).start,
    ensures
        spelled(tokenizer, ids_around(tokenizer, text, pieces, from)) == escaped_outside(
            text,
            pieces,
        ).subrange(from, text.len() as int),
    decreases pieces.len(),
{
    if pieces.len() == 0 {
        let last = text.subrange(from, text.len() as int);
        assert forall|i: int| 0 <= i < last.len() implies tokenizer.id_of(
            seq![
                if #[trigger] last[i] == ' ' {
                    '\u{2581}'
                } else {
                    last[i]
                },
            ],
        ) is Some by {
            assert(last[i] == text[from + i]);
        }
        lemma_known_piece(tokenizer, last);
        assert(escaped(last) =~= escaped_outside(text, pieces).subrange(from, text.len() as int));
    } else {
        let first = pieces[0];
        let gap = text.subrange(from, first.start);
        assert forall|i: int| 0 <= i < gap.len() implies tokenizer.id_of(
            seq![
                if #[trigger] gap[i] == ' ' {
                    '\u{2581}'
                } else {
                    gap[i]
                },
            ],
        ) is Some by {
            assert(gap[i] == text[from + i]);
        }
        lemma_known_piece(tokenizer, gap);
        lemma_outside_of_rest(text, pieces, from);
        let rest = pieces.skip(1);
        assert forall|a: int| 0 <= a < rest.len() implies #[trigger] rest[a] == pieces[a + 1]
            && first.end <= pieces[a + 1].start by {
            assert(pieces[0].end <= pieces[a + 1].start);
        }
        lemma_pieces_spell(tokenizer, text, rest, first.end);
        let own = seq![first.id];
        lemma_one_token(tokenizer, first.id);
        let head = piece_ids(tokenizer, gap);
        let tail = ids_around(tokenizer, text, rest, first.end);
        lemma_spelled_add(tokenizer, head, own);
        lemma_spelled_add(tokenizer, head + own, tail);
    }
}

/// Nothing of a text is lost where its characters are tokens: the tokens of the whole text, one
/// after the other, spell the text, with the spaces outside user-defined tokens escaped. So there
/// are as many characters as in the text, and each is that of the text or the escape of a space.
pub proof fn tokens_spell_the_text(tokenizer: Tokenizer, text: Seq<char>)
    requires
        tokenizer.wf(),
        text.len() < usize::MAX,
        characters_known(tokenizer, text),
    ensures
        ({
            let spelling = spelled(tokenizer, text_ids(tokenizer, text, 0, 0));
            &&& spelling.len() == text.len()
            &&& forall|i: int|
                0 <= i < text.len() ==> #[trigger] spelling[i] == text[i] || text[i] == ' '
                    && spelling[i] == '\u{2581}'
            &&& exists|pieces: Seq<UserPiece>| #[trigger]
                user_pieces(tokenizer, text, pieces, 0) && spelling == escaped_outside(
                    text,
                    pieces,
                )
        }),
{
    let pieces = lemma_text_is_cut(tokenizer, text, 0, 0);
    lemma_pieces_spell(tokenizer, text, pieces, 0);
    assert(escaped_outside(text, pieces).subrange(0, text.len() as int) =~= escaped_outside(
        text,
        pieces,
    ));
}

/// The bytes that a token stands for: those of its text, or the one that a byte token names.
pub open spec fn token_bytes(tokenizer: Tokenizer, id: i32) -> Seq<u8> {
    let raw = tokenizer.vocab@[id as int]@;
    match token_byte(raw) {
        Some(byte) => seq![byte as u8],
        None => encode_utf8(raw),
    }
}

/// The bytes of tokens behind each other.
pub open spec fn bytes_of(tokenizer: Tokenizer, ids: Seq<i32>) -> Seq<u8>
    decreases ids.len(),
{
    if ids.len() == 0 {
        Seq::empty()
    } else {
        bytes_of(tokenizer, ids.drop_last()) + token_bytes(tokenizer, ids.last())
    }
}

/// Whether every byte has a token.
pub open spec fn bytes_known(tokenizer: Tokenizer) -> bool {
    forall|byte: u8| tokenizer.id_of(#[trigger] byte_text(byte)) is Some
}

/// Whether a text nowhere reads like a byte token.
pub open spec fn no_byte_tokens(text: Seq<char>) -> bool {
    forall|i: int, j: int|
        0 <= i <= j <= text.len() ==> token_byte(#[trigger] text.subrange(i, j)) is None
}

proof fn lemma_one_token(tokenizer: Tokenizer, id: i32)
    ensures
        spelled(tokenizer, seq![id]) == tokenizer.vocab@[id as int]@,
        bytes_of(tokenizer, seq![id]) == token_bytes(tokenizer, id),
{
    let ids = seq![id];
    assert(ids.drop_last() =~= Seq::<i32>::empty());
    assert(ids.last() == id);
    let none = Seq::<i32>::empty();
    assert(spelled(tokenizer, none) == Seq::<char>::empty());
    assert(bytes_of(tokenizer, none) == Seq::<u8>::empty());
    assert(spelled(tokenizer, ids) =~= tokenizer.vocab@[id as int]@);
    assert(bytes_of(tokenizer, ids) =~= token_bytes(tokenizer, id));
}

proof fn lemma_bytes_of_add(tokenizer: Tokenizer, a: Seq<i32>, b: Seq<i32>)
    ensures
        bytes_of(tokenizer, a + b) == bytes_of(tokenizer, a) + bytes_of(tokenizer, b),
    decreases b.len(),
{
    if b.len() == 0 {
        assert(a + b =~= a);
        assert(bytes_of(tokenizer, a) + bytes_of(tokenizer, b) =~= bytes_of(tokenizer, a));
    } else {
        lemma_bytes_of_add(tokenizer, a, b.drop_last());
        assert((a + b).drop_last() =~= a + b.drop_last());
        assert((a + b).last() == b.last());
        assert(bytes_of(tokenizer, a + b) =~= bytes_of(tokenizer, a) + bytes_of(tokenizer, b));
    }
}

proof fn lemma_encode_add(a: Seq<char>, b: Seq<char>)
    ensures
        encode_utf8(a + b) == encode_utf8(a) + encode_utf8(b),
    decreases a.len(),
{
    if a.len() == 0 {
        assert(a + b =~= b);
        assert(encode_utf8(a) + encode_utf8(b) =~= encode_utf8(b));
    } else {
        lemma_encode_add(a.drop_first(), b);
        assert((a + b).drop_first() =~= a.drop_first() + b);
        assert((a + b)[0] == a[0]);
        assert(encode_utf8(a + b) =~= encode_utf8(a) + encode_utf8(b));
    }
}

proof fn lemma_byte_ids_read_back(tokenizer: Tokenizer, bytes: Seq<u8>, k: nat)
    requires
        tokenizer.wf(),
        bytes_known(tokenizer),
        k <= bytes.len(),
    ensures
        bytes_of(tokenizer, byte_ids(tokenizer, bytes, k)) == bytes.take(k as int),
    decreases k,
{
    if k == 0 {
        assert(bytes.take(0) =~= Seq::empty());
    } else {
        lemma_byte_ids_read_back(tokenizer, bytes, (k - 1) as nat);
        let byte = bytes[k - 1];
        let before = byte_ids(tokenizer, bytes, (k - 1) as nat);
        byte_tokens_read_back(byte);
        assert(tokenizer.id_of(byte_text(byte)) is Some);
        lemma_entry_names_its_text(tokenizer, tokenizer.token_to_id@, byte_text(byte));
        let ids = byte_ids(tokenizer, bytes, k);
        assert(ids.drop_last() =~= before);
        assert(bytes.take(k - 1) + seq![byte] =~= bytes.take(k as int));
    }
}

proof fn lemma_symbol_reads_back(tokenizer: Tokenizer, symbol: Seq<char>)
    requires
        tokenizer.wf(),
        bytes_known(tokenizer),
        token_byte(symbol) is None,
    ensures
        bytes_of(tokenizer, symbol_ids(tokenizer, symbol)) == encode_utf8(symbol),
{
    match tokenizer.id_of(symbol) {
        Some(id) => {
            lemma_entry_names_its_text(tokenizer, tokenizer.token_to_id@, symbol);
            lemma_one_token(tokenizer, id);
        },
        None => {
            let bytes = encode_utf8(symbol);
            lemma_byte_ids_read_back(tokenizer, bytes, bytes.len());
            assert(bytes.take(bytes.len() as int) =~= bytes);
        },
    }
}

proof fn lemma_symbols_read_back(tokenizer: Tokenizer, text: Seq<char>, b: Seq<usize>, k: nat)
    requires
        tokenizer.wf(),
        bytes_known(tokenizer),
        no_byte_tokens(text),
        bounds(b, text.len() as int),
        k < b.len(),
    ensures
        bytes_of(tokenizer, symbols_ids(tokenizer, text, b, k)) == encode_utf8(
            text.take(b[k as int] as int),
        ),
    decreases k,
{
    assert(b[k as int] <= b.last());
    if k == 0 {
        assert(text.take(0) =~= Seq::empty());
    } else {
        lemma_symbols_read_back(tokenizer, text, b, (k - 1) as nat);
        let from = b[k - 1] as int;
        let to = b[k as int] as int;
        assert(from < to);
        let symbol = text.subrange(from, to);
        lemma_symbol_reads_back(tokenizer, symbol);
        lemma_bytes_of_add(
            tokenizer,
            symbols_ids(tokenizer, text, b, (k - 1) as nat),
            symbol_ids(tokenizer, symbol),
        );
        lemma_encode_add(text.take(from), symbol);
        assert(text.take(from) + symbol =~= text.take(to));
    }
}

proof fn lemma_escaped_no_byte_tokens(text: Seq<char>, from: int, to: int)
    requires
        no_byte_tokens(text),
        0 <= from <= to <= text.len(),
    ensures
        no_byte_tokens(escaped(text.subrange(from, to))),
{
    let piece = escaped(text.subrange(from, to));
    assert forall|i: int, j: int| 0 <= i <= j <= piece.len() implies token_byte(
        #[trigger] piece.subrange(i, j),
    ) is None by {
        let raw = text.subrange(from + i, from + j);
        let own = piece.subrange(i, j);
        assert(token_byte(raw) is None);
        if token_byte(own) is Some {
            assert(own.len() == 6);
            assert forall|m: int| 0 <= m < 6 implies own[m] == #[trigger] raw[m] by {
                assert(own[m] == if raw[m] == ' ' {
                    ESCAPED_SPACE
                } else {
                    raw[m]
                });
                assert(own[m] != ESCAPED_SPACE) by {
                    assert(own[0] == '<' && own[1] == '0' && own[2] == 'x' && own[5] == '>');
                    assert(hex_value(own[4]) is Some);
                    assert(hex_value(own[3]) is Some || own[3] == '+');
                    assert(hex_value(ESCAPED_SPACE) is None);
                }
            }
            assert(own =~= raw);
        }
    }
}

/// Nothing of a piece is lost where every byte has a token, known or not: the bytes of its tokens
/// are the bytes of the piece, with its spaces escaped. A piece that itself reads like a byte
/// token somewhere is left out, for its token stands for another byte.
pub proof fn tokens_hold_the_bytes_of_the_piece(tokenizer: Tokenizer, piece: Seq<char>)
    requires
        tokenizer.wf(),
        piece.len() < usize::MAX,
        bytes_known(tokenizer),
        no_byte_tokens(piece),
    ensures
        bytes_of(tokenizer, piece_ids(tokenizer, piece)) == encode_utf8(escaped(piece)),
{
    merged_symbols_are_tokens_or_characters(tokenizer, piece);
    let text = escaped(piece);
    lemma_escaped_no_byte_tokens(piece, 0, piece.len() as int);
    assert(piece.subrange(0, piece.len() as int) =~= piece);
    let b = merged_symbols(tokenizer, text, single_symbols(text.len()));
    lemma_symbols_read_back(tokenizer, text, b, (b.len() - 1) as nat);
    assert(text.take(text.len() as int) =~= text);
}

proof fn lemma_pieces_hold_bytes(
    tokenizer: Tokenizer,
    text: Seq<char>,
    pieces: Seq<UserPiece>,
    from: int,
)
    requires
        tokenizer.wf(),
        text.len() < usize::MAX,
        bytes_known(tokenizer),
        no_byte_tokens(text),
        0 <= from <= text.len(),
        forall|a: int|
            0 <= a < pieces.len() ==> {
                let piece = #[trigger] pieces[a];
                &&& from <= piece.start < piece.end <= text.len()
                &&& 0 <= piece.id < tokenizer.vocab@.len()
                &&& text.subrange(piece.start, piece.end) == tokenizer.vocab@[piece.id as int]@
            },
        forall|a: int, b: int|
            0 <= a < b < pieces.len() ==> (#[trigger] pieces[a]).end <= (
            #[trigger] pieces[b]).start,
    ensures
        bytes_of(tokenizer, ids_around(tokenizer, text, pieces, from)) == encode_utf8(
            escaped_outside(text, pieces).subrange(from, text.len() as int),
        ),
    decreases pieces.len(),
{
    if pieces.len() == 0 {
        let last = text.subrange(from, text.len() as int);
        lemma_part_no_byte_tokens(text, from, text.len() as int);
        tokens_hold_the_bytes_of_the_piece(tokenizer, last);
        assert(escaped(last) =~= escaped_outside(text, pieces).subrange(from, text.len() as int));
    } else {
        let first = pieces[0];
        let gap = text.subrange(from, first.start);
        lemma_part_no_byte_tokens(text, from, first.start);
        tokens_hold_the_bytes_of_the_piece(tokenizer, gap);
        lemma_outside_of_rest(text, pieces, from);
        let rest = pieces.skip(1);
        assert forall|a: int| 0 <= a < rest.len() implies #[trigger] rest[a] == pieces[a + 1]
            && first.end <= pieces[a + 1].start by {
            assert(pieces[0].end <= pieces[a + 1].start);
        }
        lemma_pieces_hold_bytes(tokenizer, text, rest, first.end);
        let own = seq![first.id];
        let token = text.subrange(first.start, first.end);
        assert(token_byte(token) is None);
        lemma_one_token(tokenizer, first.id);
        let head = piece_ids(tokenizer, gap);
        let tail = ids_around(tokenizer, text, rest, first.end);
        lemma_bytes_of_add(tokenizer, head, own);
        lemma_bytes_of_add(tokenizer, head + own, tail);
        let all = escaped_outside(text, pieces);
        lemma_encode_add(all.subrange(from, first.start), token);
        lemma_encode_add(
            all.subrange(from, first.start) + token,
            all.subrange(first.end, text.len() as int),
        );
    }
}

proof fn lemma_part_no_byte_tokens(text: Seq<char>, from: int, to: int)
    requires
        no_byte_tokens(text),
        0 <= from <= to <= text.len(),
    ensures
        no_byte_tokens(text.subrange(from, to)),
{
    let part = text.subrange(from, to);
    assert forall|i: int, j: int| 0 <= i <= j <= part.len() implies token_byte(
        #[trigger] part.subrange(i, j),
    ) is None by {
        assert(part.subrange(i, j) =~= text.subrange(from + i, from + j));
    }
}

/// Nothing of a text is lost where every byte has a token, whatever its characters are: the bytes
/// of its tokens are the bytes of the text, with the spaces outside user-defined tokens escaped. A
/// text that itself reads like a byte token somewhere is left out.
pub proof fn tokens_hold_the_bytes_of_the_text(tokenizer: Tokenizer, text: Seq<char>)
    requires
        tokenizer.wf(),
        text.len() < usize::MAX,
        bytes_known(tokenizer),
        no_byte_tokens(text),
    ensures
        exists|pieces: Seq<UserPiece>| #[trigger]
            user_pieces(tokenizer, text, pieces, 0) && bytes_of(
                tokenizer,
                text_ids(tokenizer, text, 0, 0),
            ) == encode_utf8(escaped_outside(text, pieces)),
{
    let pieces = lemma_text_is_cut(tokenizer, text, 0, 0);
    lemma_pieces_hold_bytes(tokenizer, text, pieces, 0);
    assert(escaped_outside(text, pieces).subrange(0, text.len() as int) =~= escaped_outside(
        text,
        pieces,
    ));
}

} // verus!
