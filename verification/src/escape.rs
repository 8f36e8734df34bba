//! A scanner that cuts text into the pieces that matter when it is put into
//! a Kakoune command: percent signs and opening braces, which must be
//! escaped, expansion blocks, which must stay as they are, and plain text.
//!
//! The scanner works on the UTF-8 bytes of the text. All the characters it
//! looks for are ASCII, so every cut falls between two characters.

use crate::text::{
    find_byte, first_index, lemma_boundary_at_ascii, lemma_first_index, lemma_first_index_is,
};
use vstd::prelude::*;
use vstd::string::StringSliceAdditionalSpecFns;
use vstd::utf8::{
    encode_utf8_valid_utf8, is_char_boundary, is_char_boundary_start_end_of_seq, valid_utf8,
};

verus! {

/// A piece of scanned text.
#[derive(PartialEq, Debug)]
pub enum Token<'a> {
    /// A percent sign that opens no block.
    Percent,
    /// Text without any character that the scanner looks for.
    Str(&'a str),
    /// An expansion: a percent sign, perhaps a name, and a block in braces.
    Block(&'a str),
    /// An opening brace.
    OpenBrace,
}

/// What a token says, with the bytes of its text.
pub enum TokenView {
    Percent,
    Str(Seq<u8>),
    Block(Seq<u8>),
    OpenBrace,
}

impl<'a> View for Token<'a> {
    type V = TokenView;

    open spec fn view(&self) -> TokenView {
        match *self {
            Token::Percent => TokenView::Percent,
            Token::Str(text) => TokenView::Str(text.spec_bytes()),
            Token::Block(text) => TokenView::Block(text.spec_bytes()),
            Token::OpenBrace => TokenView::OpenBrace,
        }
    }
}

impl TokenView {
    /// The bytes of scanned text that the token stands for.
    pub open spec fn bytes(self) -> Seq<u8> {
        match self {
            TokenView::Percent => seq![PERCENT],
            TokenView::Str(text) => text,
            TokenView::Block(text) => text,
            TokenView::OpenBrace => seq![OPEN_BRACE],
        }
    }

    /// The number of bytes of scanned text that the token stands for.
    pub open spec fn len(self) -> nat {
        match self {
            TokenView::Percent => 1,
            TokenView::Str(text) => text.len(),
            TokenView::Block(text) => text.len(),
            TokenView::OpenBrace => 1,
        }
    }
}

/// What the scanner looks for.
#[derive(Clone, Copy, Debug, PartialEq, Eq, Structural)]
pub enum Mode {
    /// Expansion blocks and percent signs.
    Block,
    /// Opening braces.
    Brace,
}

/// The byte of the percent sign.
pub const PERCENT: u8 = 0x25;

/// The byte of the opening brace.
pub const OPEN_BRACE: u8 = 0x7b;

/// The byte of the closing brace.
pub const CLOSE_BRACE: u8 = 0x7d;

/// Where the block ends that is open `depth` braces deep at index `from`:
/// behind the closing brace that brings the depth to zero, or at the end of
/// the text where the braces do not balance.
pub open spec fn block_end(bytes: Seq<u8>, from: int, depth: nat) -> int
    decreases bytes.len() - from,
{
    if depth == 0 || from < 0 || from >= bytes.len() {
        from
    } else if bytes[from] == OPEN_BRACE {
        block_end(bytes, from + 1, depth + 1)
    } else if bytes[from] == CLOSE_BRACE {
        block_end(bytes, from + 1, (depth - 1) as nat)
    } else {
        block_end(bytes, from + 1, depth)
    }
}

/// The text begins with a percent sign, this name, and an opening brace.
pub open spec fn opens_block(bytes: Seq<u8>, name: Seq<char>) -> bool {
    &&& bytes.len() >= name.len() + 2
    &&& bytes[0] == PERCENT
    &&& forall|i: int| 0 <= i < name.len() ==> #[trigger] bytes[i + 1] == name[i] as u8
    &&& bytes[name.len() as int + 1] == OPEN_BRACE
}

/// The length of the head of an expansion at the beginning of the text, up
/// to and with its opening brace; zero where the text begins with none. An
/// expansion has no name or one of `sh`, `opt`, `val`, `reg`, `arg`, `file`.
pub open spec fn header_size(bytes: Seq<u8>) -> nat {
    if opens_block(bytes, ""@) {
        2
    } else if opens_block(bytes, "sh"@) {
        4
    } else if opens_block(bytes, "opt"@) || opens_block(bytes, "val"@) || opens_block(
        bytes,
        "reg"@,
    ) || opens_block(bytes, "arg"@) {
        5
    } else if opens_block(bytes, "file"@) {
        6
    } else {
        0
    }
}

/// The first token of a text that is not empty.
pub open spec fn first_token(bytes: Seq<u8>, mode: Mode) -> TokenView
    recommends
        bytes.len() > 0,
{
    match mode {
        Mode::Block => if bytes[0] == PERCENT {
            if header_size(bytes) > 0 {
                TokenView::Block(bytes.take(block_end(bytes, header_size(bytes) as int, 1)))
            } else {
                TokenView::Percent
            }
        } else {
            TokenView::Str(bytes.take(first_index(bytes, PERCENT)))
        },
        Mode::Brace => if bytes[0] == OPEN_BRACE {
            TokenView::OpenBrace
        } else {
            TokenView::Str(bytes.take(first_index(bytes, OPEN_BRACE)))
        },
    }
}

/// All the tokens of a text, in their order.
pub open spec fn tokens(bytes: Seq<u8>, mode: Mode) -> Seq<TokenView>
    decreases bytes.len(),
{
    if bytes.len() == 0 {
        Seq::empty()
    } else {
        let first = first_token(bytes, mode);
        if 0 < first.len() <= bytes.len() {
            seq![first] + tokens(bytes.skip(first.len() as int), mode)
        } else {
            seq![first]
        }
    }
}

/// The bytes that a sequence of tokens stands for, one token after the
/// other.
pub open spec fn joined(tokens: Seq<TokenView>) -> Seq<u8>
    decreases tokens.len(),
{
    if tokens.len() == 0 {
        Seq::empty()
    } else {
        tokens[0].bytes() + joined(tokens.drop_first())
    }
}

/// The first token of a text stands for the bytes at its beginning. Plain
/// text holds none of the characters that the scanner looks for, and in
/// brace mode there are no blocks and no percent signs.
pub proof fn lemma_first_token(bytes: Seq<u8>, mode: Mode)
    requires
        bytes.len() > 0,
    ensures
        0 < first_token(bytes, mode).len() <= bytes.len(),
        first_token(bytes, mode).bytes() == bytes.take(first_token(bytes, mode).len() as int),
        first_token(bytes, mode) matches TokenView::Str(text) ==> first_index(
            text,
            match mode {
                Mode::Block => PERCENT,
                Mode::Brace => OPEN_BRACE,
            },
        ) == text.len(),
        mode == Mode::Brace ==> first_token(bytes, mode) is Str || first_token(bytes, mode)
            is OpenBrace,
{
    lemma_first_token_len(bytes, mode);
    let marker = match mode {
        Mode::Block => PERCENT,
        Mode::Brace => OPEN_BRACE,
    };
    lemma_first_index(bytes, marker);
    match first_token(bytes, mode) {
        TokenView::Str(text) => {
            lemma_first_index_is(text, marker, text.len() as int);
        },
        TokenView::Block(text) => {
            lemma_header_size(bytes);
            lemma_block_end_bounds(bytes, header_size(bytes) as int, 1);
        },
        _ => {
            assert(bytes.take(1) == seq![bytes[0]]);
        },
    }
}

/// The tokens of a text stand for all of it: put one after the other,
/// they give the text back.
pub proof fn lemma_tokens_cover(bytes: Seq<u8>, mode: Mode)
    ensures
        joined(tokens(bytes, mode)) == bytes,
    decreases bytes.len(),
{
    if bytes.len() > 0 {
        lemma_first_token(bytes, mode);
        let first = first_token(bytes, mode);
        let rest = bytes.skip(first.len() as int);
        lemma_tokens_cover(rest, mode);
        let all = tokens(bytes, mode);
        assert(all.drop_first() == tokens(rest, mode));
        assert(bytes.take(first.len() as int) + rest == bytes);
    }
}

/// A block ends between where its scan began and the end of the text.
pub proof fn lemma_block_end_bounds(bytes: Seq<u8>, from: int, depth: nat)
    requires
        0 <= from <= bytes.len(),
    ensures
        from <= block_end(bytes, from, depth) <= bytes.len(),
    decreases bytes.len() - from,
{
    if depth == 0 || from >= bytes.len() {
    } else if bytes[from] == OPEN_BRACE {
        lemma_block_end_bounds(bytes, from + 1, depth + 1);
    } else if bytes[from] == CLOSE_BRACE {
        lemma_block_end_bounds(bytes, from + 1, (depth - 1) as nat);
    } else {
        lemma_block_end_bounds(bytes, from + 1, depth);
    }
}

/// A block that is open ends behind a closing brace, or at the end of the
/// text.
pub proof fn lemma_block_end_at_brace(bytes: Seq<u8>, from: int, depth: nat)
    requires
        0 <= from <= bytes.len(),
        depth > 0,
    ensures
        block_end(bytes, from, depth) == bytes.len() || (block_end(bytes, from, depth) > from
            && bytes[block_end(bytes, from, depth) - 1] == CLOSE_BRACE),
    decreases bytes.len() - from,
{
    if from >= bytes.len() {
    } else if bytes[from] == OPEN_BRACE {
        lemma_block_end_at_brace(bytes, from + 1, depth + 1);
    } else if bytes[from] == CLOSE_BRACE {
        if depth > 1 {
            lemma_block_end_at_brace(bytes, from + 1, (depth - 1) as nat);
        }
    } else {
        lemma_block_end_at_brace(bytes, from + 1, depth);
    }
}

/// The scanner cuts no character in two: in the UTF-8 bytes of a text, the
/// first token ends where a character ends.
pub proof fn lemma_first_token_boundary(bytes: Seq<u8>, mode: Mode)
    requires
        valid_utf8(bytes),
        bytes.len() > 0,
    ensures
        is_char_boundary(bytes, first_token(bytes, mode).len() as int),
{
    lemma_first_token_len(bytes, mode);
    lemma_first_index(bytes, PERCENT);
    lemma_first_index(bytes, OPEN_BRACE);
    is_char_boundary_start_end_of_seq(bytes);
    let end = first_token(bytes, mode).len() as int;
    match first_token(bytes, mode) {
        TokenView::Str(text) => {
            if end < bytes.len() {
                lemma_boundary_at_ascii(bytes, end);
            }
        },
        TokenView::Block(text) => {
            lemma_header_size(bytes);
            lemma_block_end_bounds(bytes, header_size(bytes) as int, 1);
            lemma_block_end_at_brace(bytes, header_size(bytes) as int, 1);
            if end < bytes.len() {
                lemma_boundary_at_ascii(bytes, end - 1);
            }
        },
        _ => {
            lemma_boundary_at_ascii(bytes, 0);
        },
    }
}

/// The first token of a text that is not empty takes at least one byte of
/// it and no more than there are.
pub proof fn lemma_first_token_len(bytes: Seq<u8>, mode: Mode)
    requires
        bytes.len() > 0,
    ensures
        0 < first_token(bytes, mode).len() <= bytes.len(),
{
    lemma_first_index(bytes, PERCENT);
    lemma_first_index(bytes, OPEN_BRACE);
    if mode == Mode::Block && bytes[0] == PERCENT && header_size(bytes) > 0 {
        lemma_header_size(bytes);
        lemma_block_end_bounds(bytes, header_size(bytes) as int, 1);
    }
}

/// A head of an expansion lies within the text and ends with its opening
/// brace.
pub proof fn lemma_header_size(bytes: Seq<u8>)
    ensures
        header_size(bytes) <= bytes.len(),
        header_size(bytes) > 0 ==> bytes[0] == PERCENT && bytes[header_size(bytes) - 1]
            == OPEN_BRACE,
{
    reveal_strlit("");
    reveal_strlit("sh");
    reveal_strlit("opt");
    reveal_strlit("val");
    reveal_strlit("reg");
    reveal_strlit("arg");
    reveal_strlit("file");
}

/// Whether the text begins with a percent sign, this name, and an opening
/// brace.
fn starts_block(bytes: &[u8], name: &str) -> (opens: bool)
    requires
        name.is_ascii(),
    ensures
        opens == opens_block(bytes@, name@),
{
    let letters = name.as_bytes();
    proof {
        vstd::string::is_ascii_spec_bytes(name);
    }
    if bytes.len() < 2 || letters.len() > bytes.len() - 2 || bytes[0] != PERCENT {
        return false;
    }
    let mut i: usize = 0;
    while i < letters.len()
        invariant
            i <= letters.len(),
            letters@.len() == name@.len(),
            letters@.len() + 2 <= bytes@.len(),
            forall|k: int| 0 <= k < letters@.len() ==> letters@[k] == name@[k] as u8,
            forall|k: int| 0 <= k < i ==> #[trigger] bytes@[k + 1] == name@[k] as u8,
        decreases letters.len() - i,
    {
        if bytes[i + 1] != letters[i] {
            return false;
        }
        i = i + 1;
    }
    bytes[letters.len() + 1] == OPEN_BRACE
}

/// The length of the head of an expansion at the beginning of the text.
fn header_len(bytes: &[u8]) -> (len: usize)
    ensures
        len == header_size(bytes@),
{
    proof {
        reveal_strlit("");
        reveal_strlit("sh");
        reveal_strlit("opt");
        reveal_strlit("val");
        reveal_strlit("reg");
        reveal_strlit("arg");
        reveal_strlit("file");
    }
    if starts_block(bytes, "") {
        2
    } else if starts_block(bytes, "sh") {
        4
    } else if starts_block(bytes, "opt") || starts_block(bytes, "val") || starts_block(
        bytes,
        "reg",
    ) || starts_block(bytes, "arg") {
        5
    } else if starts_block(bytes, "file") {
        6
    } else {
        0
    }
}

/// The views of a sequence of tokens.
pub open spec fn token_views(tokens: Seq<Token<'_>>) -> Seq<TokenView> {
    tokens.map_values(|t: Token<'_>| t@)
}

/// A scanner over a text, which hands out its tokens one by one.
pub struct EscapeIterator<'a> {
    remainder: &'a str,
    mode: Mode,
}

impl<'a> EscapeIterator<'a> {
    /// The bytes of the text not yet scanned.
    pub closed spec fn remaining(&self) -> Seq<u8> {
        self.remainder.spec_bytes()
    }

    /// What the scanner looks for.
    pub closed spec fn mode(&self) -> Mode {
        self.mode
    }

    pub fn new(string: &'a str, mode: Mode) -> (scanner: Self)
        ensures
            scanner.remaining() == string.spec_bytes(),
            scanner.mode() == mode,
    {
        Self { remainder: string, mode }
    }

    /// Cuts the text at byte `end`, between two characters, and hands out
    /// what lies before the cut.
    fn cut(&mut self, end: usize) -> (chunk: &'a str)
        requires
            is_char_boundary(old(self).remaining(), end as int),
        ensures
            chunk.spec_bytes() == old(self).remaining().take(end as int),
            final(self).remaining() == old(self).remaining().skip(end as int),
            final(self).mode() == old(self).mode(),
    {
        let text: &'a str = self.remainder;
        let (chunk, rest) = text.split_at(end);
        self.remainder = rest;
        chunk
    }

    /// Hands out, as a block, the text up to the end of the block that
    /// opens with the brace before byte `header_size`. Where the braces do
    /// not balance, the block is all the text that is left.
    pub fn yield_block(&mut self, header_size: usize) -> (token: Option<Token<'a>>)
        requires
            is_char_boundary(old(self).remaining(), header_size as int),
        ensures
            token matches Some(t) && t@ == TokenView::Block(
                old(self).remaining().take(block_end(old(self).remaining(), header_size as int, 1)),
            ),
            final(self).remaining() == old(self).remaining().skip(
                block_end(old(self).remaining(), header_size as int, 1),
            ),
            final(self).mode() == old(self).mode(),
    {
        let bytes = self.remainder.as_bytes();
        proof {
            encode_utf8_valid_utf8(self.remainder@);
        }
        // the depth never exceeds the length of the text by more than one
        let mut depth: u128 = 1;
        let mut end: usize = header_size;
        while end < bytes.len() && depth > 0
            invariant
                bytes@ == self.remaining(),
                header_size <= end <= bytes.len(),
                depth <= 1 + (end - header_size),
                depth == 0 ==> end > header_size && bytes@[end - 1] == CLOSE_BRACE,
                block_end(bytes@, end as int, depth as nat) == block_end(
                    bytes@,
                    header_size as int,
                    1,
                ),
            decreases bytes.len() - end,
        {
            if bytes[end] == OPEN_BRACE {
                depth = depth + 1;
            } else if bytes[end] == CLOSE_BRACE {
                depth = depth - 1;
            }
            end = end + 1;
        }
        proof {
            if depth == 0 {
                lemma_boundary_at_ascii(bytes@, end - 1);
            } else {
                is_char_boundary_start_end_of_seq(bytes@);
            }
        }
        let chunk = self.cut(end);
        Some(Token::Block(chunk))
    }

    /// Hands out a percent sign for the first byte of the text.
    pub fn yield_percent(&mut self) -> (token: Option<Token<'a>>)
        requires
            is_char_boundary(old(self).remaining(), 1),
        ensures
            token matches Some(t) && t@ == TokenView::Percent,
            final(self).remaining() == old(self).remaining().skip(1),
            final(self).mode() == old(self).mode(),
    {
        let _ = self.cut(1);
        Some(Token::Percent)
    }

    /// Hands out all the text that is left as plain text.
    pub fn yield_remainder(&mut self) -> (token: Option<Token<'a>>)
        ensures
            token matches Some(t) && t@ == TokenView::Str(old(self).remaining()),
            final(self).remaining() == Seq::<u8>::empty(),
            final(self).mode() == old(self).mode(),
    {
        let end = self.remainder.as_bytes().len();
        proof {
            encode_utf8_valid_utf8(self.remainder@);
            is_char_boundary_start_end_of_seq(self.remaining());
        }
        let chunk = self.cut(end);
        assert(chunk.spec_bytes() == old(self).remaining());
        Some(Token::Str(chunk))
    }

    /// Hands out the first `end` bytes of the text as plain text.
    pub fn yield_chunk(&mut self, end: usize) -> (token: Option<Token<'a>>)
        requires
            is_char_boundary(old(self).remaining(), end as int),
        ensures
            token matches Some(t) && t@ == TokenView::Str(old(self).remaining().take(end as int)),
            final(self).remaining() == old(self).remaining().skip(end as int),
            final(self).mode() == old(self).mode(),
    {
        let chunk = self.cut(end);
        Some(Token::Str(chunk))
    }

    /// Hands out the next token, or nothing at the end of the text.
    pub fn next(&mut self) -> (token: Option<Token<'a>>)
        ensures
            final(self).mode() == old(self).mode(),
            old(self).remaining().len() == 0 ==> token is None && final(self).remaining() == old(
                self,
            ).remaining(),
            old(self).remaining().len() > 0 ==> (token matches Some(t) && t@ == first_token(
                old(self).remaining(),
                old(self).mode(),
            )) && final(self).remaining() == old(self).remaining().skip(
                first_token(old(self).remaining(), old(self).mode()).len() as int,
            ),
    {
        let bytes = self.remainder.as_bytes();
        if bytes.len() == 0 {
            return None;
        }
        proof {
            encode_utf8_valid_utf8(self.remainder@);
            lemma_first_index(bytes@, PERCENT);
            lemma_first_index(bytes@, OPEN_BRACE);
            lemma_header_size(bytes@);
            lemma_block_end_bounds(bytes@, header_size(bytes@) as int, 1);
        }
        let marker = match self.mode {
            Mode::Block => PERCENT,
            Mode::Brace => OPEN_BRACE,
        };
        if bytes[0] == marker {
            proof {
                lemma_boundary_at_ascii(bytes@, 0);
            }
            match self.mode {
                Mode::Block => {
                    let header = header_len(bytes);
                    if header > 0 {
                        proof {
                            lemma_boundary_at_ascii(bytes@, header - 1);
                        }
                        self.yield_block(header)
                    } else {
                        self.yield_percent()
                    }
                },
                Mode::Brace => self.yield_openbrace(),
            }
        } else {
            let end = find_byte(bytes, marker);
            if end < bytes.len() {
                proof {
                    lemma_boundary_at_ascii(bytes@, end as int);
                }
                self.yield_chunk(end)
            } else {
                assert(bytes@.take(end as int) == bytes@);
                assert(bytes@.skip(end as int) == Seq::<u8>::empty());
                self.yield_remainder()
            }
        }
    }

    /// Scans the rest of the text and hands out all its tokens.
    pub fn collect(self) -> (all: Vec<Token<'a>>)
        ensures
            token_views(all@) == tokens(self.remaining(), self.mode()),
    {
        let mut scanner = self;
        let mut all: Vec<Token<'a>> = Vec::new();
        loop
            invariant
                scanner.mode() == self.mode(),
                token_views(all@) + tokens(scanner.remaining(), scanner.mode()) == tokens(
                    self.remaining(),
                    self.mode(),
                ),
            ensures
                token_views(all@) == tokens(self.remaining(), self.mode()),
            decreases scanner.remaining().len(),
        {
            let ghost before = scanner.remaining();
            let ghost seen = token_views(all@);
            match scanner.next() {
                Some(token) => {
                    proof {
                        lemma_first_token_len(before, scanner.mode());
                        assert(token_views(all@.push(token)) == seen.push(token@));
                        assert(seen.push(token@) + tokens(scanner.remaining(), scanner.mode())
                            == seen + tokens(before, scanner.mode()));
                    }
                    all.push(token);
                },
                None => {
                    assert(tokens(before, scanner.mode()) == Seq::<TokenView>::empty());
                    assert(seen + Seq::<TokenView>::empty() == seen);
                    break ;
                },
            }
        }
        all
    }

    /// Hands out an opening brace for the first byte of the text.
    pub fn yield_openbrace(&mut self) -> (token: Option<Token<'a>>)
        requires
            is_char_boundary(old(self).remaining(), 1),
        ensures
            token matches Some(t) && t@ == TokenView::OpenBrace,
            final(self).remaining() == old(self).remaining().skip(1),
            final(self).mode() == old(self).mode(),
    {
        let _ = self.cut(1);
        Some(Token::OpenBrace)
    }
}

} // verus!
