//! The listing: the blocks shown for the addresses around a position, where
//! a line of a block begins among its tokens, how the position moves when
//! the listing is scrolled, and which section an address lies in.

use vstd::prelude::*;
use vstd::utf8::encode_utf8;

verus! {

/// A piece of text of the listing.
#[derive(Debug, PartialEq, Eq)]
pub struct Token {
    pub text: String,
}

impl Token {
    /// The bytes of the token's text.
    pub open spec fn bytes(&self) -> Seq<u8> {
        encode_utf8(self.text@)
    }

    /// A token with the text `text`.
    pub fn from_str(text: &str) -> (token: Token)
        ensures
            token.text@ == text@,
    {
        Token { text: text.to_owned() }
    }
}

/// The texts of a list of tokens, as bytes.
pub open spec fn token_texts(tokens: Seq<Token>) -> Seq<Seq<u8>> {
    Seq::new(tokens.len(), |i: int| tokens[i].bytes())
}

/// How many of the first `upto` bytes of `text` are line feeds.
pub open spec fn line_feeds(text: Seq<u8>, upto: int) -> nat
    decreases upto,
{
    if upto <= 0 {
        0
    } else {
        line_feeds(text, upto - 1) + if text[upto - 1] == '\n' as u8 {
            1nat
        } else {
            0nat
        }
    }
}

/// How many line feeds the first `upto` texts hold.
pub open spec fn line_feeds_in(texts: Seq<Seq<u8>>, upto: int) -> nat
    decreases upto,
{
    if upto <= 0 {
        0
    } else {
        line_feeds_in(texts, upto - 1) + line_feeds(texts[upto - 1], texts[upto - 1].len() as int)
    }
}

/// Whether byte `jdx` of text `idx` exists.
pub open spec fn is_place(texts: Seq<Seq<u8>>, idx: int, jdx: int) -> bool {
    0 <= idx < texts.len() && 0 <= jdx < texts[idx].len()
}

/// The line on which byte `jdx` of text `idx` stands: the number of line
/// feeds before it.
pub open spec fn line_of(texts: Seq<Seq<u8>>, idx: int, jdx: int) -> nat {
    line_feeds_in(texts, idx) + line_feeds(texts[idx], jdx)
}

/// Whether the place `(i, j)` comes before the place `(idx, jdx)`.
pub open spec fn comes_before(i: int, j: int, idx: int, jdx: int) -> bool {
    i < idx || (i == idx && j < jdx)
}

/// Whether `(idx, jdx)` is where line `line` begins: the first place that
/// stands on that line.
pub open spec fn begins_line(texts: Seq<Seq<u8>>, line: nat, idx: int, jdx: int) -> bool {
    &&& is_place(texts, idx, jdx)
    &&& line_of(texts, idx, jdx) == line
    &&& forall|i: int, j: int|
        is_place(texts, i, j) && comes_before(i, j, idx, jdx) ==> #[trigger] line_of(texts, i, j)
            < line
}

/// Whether no place stands on line `line`.
pub open spec fn lacks_line(texts: Seq<Seq<u8>>, line: nat) -> bool {
    forall|i: int, j: int| is_place(texts, i, j) ==> #[trigger] line_of(texts, i, j) != line
}

/// What is shown for one address: its tokens, and the number of lines that
/// they are counted as.
pub struct Block {
    pub addr: usize,
    pub tokens: Vec<Token>,
    pub line_count: usize,
}

impl Block {
    /// Where line `line` of the block begins: the token and the byte in it.
    /// A line from `line_count` on, or one that no byte stands on, has no
    /// place.
    pub fn with_offset(&self, line: usize) -> (place: Option<(usize, usize)>)
        ensures
            match place {
                Some((idx, jdx)) => line < self.line_count && begins_line(
                    token_texts(self.tokens@),
                    line as nat,
                    idx as int,
                    jdx as int,
                ),
                None => line >= self.line_count || lacks_line(
                    token_texts(self.tokens@),
                    line as nat,
                ),
            },
    {
        if line >= self.line_count {
            return None;
        }
        let ghost texts = token_texts(self.tokens@);
        let mut left: usize = line;
        let mut idx: usize = 0;
        while idx < self.tokens.len()
            invariant
                idx <= self.tokens@.len(),
                texts == token_texts(self.tokens@),
                line < self.line_count,
                left + line_feeds_in(texts, idx as int) == line,
                forall|i: int, j: int|
                    is_place(texts, i, j) && i < idx ==> #[trigger] line_of(texts, i, j) < line,
            decreases self.tokens@.len() - idx,
        {
            let text = self.tokens[idx].text.as_str().as_bytes();
            assert(text@ == texts[idx as int]);
            let mut jdx: usize = 0;
            while jdx < text.len()
                invariant
                    idx < self.tokens@.len(),
                    jdx <= text@.len(),
                    texts == token_texts(self.tokens@),
                    text@ == texts[idx as int],
                    line < self.line_count,
                    left + line_of(texts, idx as int, jdx as int) == line,
                    forall|i: int, j: int|
                        is_place(texts, i, j) && comes_before(i, j, idx as int, jdx as int)
                            ==> #[trigger] line_of(texts, i, j) < line,
                decreases text@.len() - jdx,
            {
                if left == 0 {
                    return Some((idx, jdx));
                }
                if text[jdx] == '\n' as u8 {
                    left = left - 1;
                }
                jdx = jdx + 1;
            }
            idx = idx + 1;
        }
        None
    }
}

/// The number of lines of the first `upto` blocks.
pub open spec fn lines_before(blocks: Seq<Block>, upto: int) -> nat
    decreases upto,
{
    if upto <= 0 {
        0
    } else {
        lines_before(blocks, upto - 1) + blocks[upto - 1].line_count as nat
    }
}

/// The number of lines of all blocks.
pub open spec fn total_lines(blocks: Seq<Block>) -> nat {
    lines_before(blocks, blocks.len() as int)
}

/// More blocks never have fewer lines.
pub proof fn lemma_lines_before_grows(blocks: Seq<Block>, i: int, j: int)
    requires
        i <= j,
    ensures
        lines_before(blocks, i) <= lines_before(blocks, j),
    decreases j - i,
{
    if i < j {
        lemma_lines_before_grows(blocks, i, j - 1);
    }
}

/// The address that a jump to `addr` tries in its attempt `attempt`: the
/// address itself and the 15 behind it, then the 16 before it from the
/// nearest on, each kept inside the address space.
pub open spec fn jump_address(addr: usize, attempt: usize) -> int {
    if attempt < 16 {
        if addr + attempt > usize::MAX {
            usize::MAX as int
        } else {
            addr + attempt
        }
    } else if addr < attempt - 15 {
        0
    } else {
        addr - (attempt - 15)
    }
}

/// How many addresses a jump tries.
pub const JUMP_ATTEMPTS: usize = 32;

/// The address that a jump to `addr` tries in its attempt `attempt`.
pub fn jump_target(addr: usize, attempt: usize) -> (target: usize)
    requires
        attempt < JUMP_ATTEMPTS,
    ensures
        target == jump_address(addr, attempt),
{
    if attempt < 16 {
        if addr > usize::MAX - attempt {
            usize::MAX
        } else {
            addr + attempt
        }
    } else if addr < attempt - 15 {
        0
    } else {
        addr - (attempt - 15)
    }
}

/// A window into a listing: the blocks around an address, and the line of
/// them that is shown first.
pub struct DisassemblyView {
    /// Address of the current block.
    pub addr: usize,
    /// The blocks, in the order of their addresses.
    pub blocks: Vec<Block>,
    /// The current block.
    pub block_offset: usize,
    /// The current line in the current block.
    pub block_line_offset: usize,
    /// The current line among the lines of all blocks.
    pub line_offset: usize,
    /// Number of lines of all blocks.
    pub line_count: usize,
    /// Twice the number of lines that are shown.
    pub max_lines: usize,
}

impl DisassemblyView {
    /// Whether the view stands on a line of its blocks: every block has a
    /// line, the current block is one of them, the line in it is one of its
    /// lines, and `line_offset` is the number of lines before that line.
    pub open spec fn placed(&self) -> bool {
        &&& self.block_offset < self.blocks@.len()
        &&& forall|i: int| 0 <= i < self.blocks@.len() ==> (#[trigger] self.blocks@[i]).line_count >= 1
        &&& self.block_line_offset < self.blocks@[self.block_offset as int].line_count
        &&& self.line_offset == lines_before(self.blocks@, self.block_offset as int)
            + self.block_line_offset
    }

    /// A view without blocks.
    pub fn new() -> (view: DisassemblyView)
        ensures
            view.addr == 0,
            view.blocks@.len() == 0,
            view.block_offset == 0,
            view.block_line_offset == 0,
            view.line_offset == 0,
            view.line_count == 0,
            view.max_lines == 0,
    {
        DisassemblyView {
            addr: 0,
            blocks: Vec::new(),
            block_offset: 0,
            block_line_offset: 0,
            line_offset: 0,
            line_count: 0,
            max_lines: 0,
        }
    }

    /// Address of the current block.
    pub fn addr(&self) -> (addr: usize)
        ensures
            addr == self.addr,
    {
        self.addr
    }

    /// Takes `count` as the number of lines to fill if it differs by more
    /// than 2 from the number held, and says whether it did: the listing has
    /// to be filled again then.
    pub fn set_max_lines(&mut self, count: usize) -> (changed: bool)
        ensures
            changed == (old(self).max_lines - count > 2 || count - old(self).max_lines > 2),
            final(self).max_lines == (if changed {
                count
            } else {
                old(self).max_lines
            }),
            final(self).addr == old(self).addr,
            final(self).blocks@ == old(self).blocks@,
            final(self).block_offset == old(self).block_offset,
            final(self).block_line_offset == old(self).block_line_offset,
            final(self).line_offset == old(self).line_offset,
            final(self).line_count == old(self).line_count,
    {
        let apart = if self.max_lines > count {
            self.max_lines - count
        } else {
            count - self.max_lines
        };
        if apart > 2 {
            self.max_lines = count;
            true
        } else {
            false
        }
    }

    /// Moves the view to the address `addr` that a jump has found, at the
    /// first line of its block.
    pub fn jump(&mut self, addr: usize)
        ensures
            final(self).addr == addr,
            final(self).block_line_offset == 0,
            final(self).blocks@ == old(self).blocks@,
            final(self).block_offset == old(self).block_offset,
            final(self).line_offset == old(self).line_offset,
            final(self).line_count == old(self).line_count,
            final(self).max_lines == old(self).max_lines,
    {
        self.addr = addr;
        self.block_line_offset = 0;
    }

    /// Scrolls the view down by `lines` lines, which the blocks must have
    /// below the current line.
    pub fn scroll_down(&mut self, lines: usize)
        requires
            old(self).placed(),
            old(self).line_offset + lines < total_lines(old(self).blocks@),
            old(self).line_offset + lines <= usize::MAX,
        ensures
            final(self).placed(),
            final(self).line_offset == old(self).line_offset + lines,
            final(self).blocks@ == old(self).blocks@,
            final(self).addr == final(self).blocks@[final(self).block_offset as int].addr,
            final(self).line_count == old(self).line_count,
            final(self).max_lines == old(self).max_lines,
    {
        let mut left: usize = lines;
        while left > 0
            invariant
                self.placed(),
                self.blocks@ == old(self).blocks@,
                self.line_count == old(self).line_count,
                self.max_lines == old(self).max_lines,
                left <= lines,
                self.line_offset + left == old(self).line_offset + lines,
                self.line_offset + left < total_lines(self.blocks@),
                self.line_offset + left <= usize::MAX,
            decreases left,
        {
            let last = self.blocks.len() - 1;
            assert(self.block_offset <= last);
            let remaining = self.blocks[self.block_offset].line_count - self.block_line_offset;
            if left < remaining {
                self.block_line_offset = self.block_line_offset + left;
                self.line_offset = self.line_offset + left;
                left = 0;
            } else {
                proof {
                    lemma_lines_before_grows(
                        self.blocks@,
                        self.block_offset + 1,
                        self.blocks@.len() as int,
                    );
                }
                left = left - remaining;
                self.block_offset = self.block_offset + 1;
                self.block_line_offset = 0;
                self.line_offset = self.line_offset + remaining;
            }
        }
        self.addr = self.blocks[self.block_offset].addr;
    }

    /// Scrolls the view up by `lines` lines, which the blocks must have
    /// above the current line.
    pub fn scroll_up(&mut self, lines: usize)
        requires
            old(self).placed(),
            lines <= old(self).line_offset,
        ensures
            final(self).placed(),
            final(self).line_offset == old(self).line_offset - lines,
            final(self).blocks@ == old(self).blocks@,
            final(self).addr == final(self).blocks@[final(self).block_offset as int].addr,
            final(self).line_count == old(self).line_count,
            final(self).max_lines == old(self).max_lines,
    {
        let mut left: usize = lines;
        while left > 0
            invariant
                self.placed(),
                self.blocks@ == old(self).blocks@,
                self.line_count == old(self).line_count,
                self.max_lines == old(self).max_lines,
                left <= self.line_offset,
                self.line_offset - left == old(self).line_offset - lines,
            decreases left,
        {
            let remaining = self.block_line_offset + 1;
            if left < remaining {
                self.block_line_offset = self.block_line_offset - left;
                self.line_offset = self.line_offset - left;
                left = 0;
            } else {
                left = left - remaining;
                if self.block_offset > 0 {
                    self.block_offset = self.block_offset - 1;
                    self.block_line_offset = self.blocks[self.block_offset].line_count - 1;
                } else {
                    self.block_line_offset = 0;
                }
                self.line_offset = self.line_offset - remaining;
            }
        }
        self.addr = self.blocks[self.block_offset].addr;
    }
}

/// A section of the binary: its name, its bytes, and the addresses from
/// `start` to `end`, both of them in it.
#[derive(Debug, PartialEq, Eq)]
pub struct Section {
    pub name: String,
    pub bytes: Vec<u8>,
    pub start: usize,
    pub end: usize,
}

impl Section {
    /// Whether `addr` lies in the section.
    pub open spec fn holds(&self, addr: usize) -> bool {
        self.start <= addr <= self.end
    }
}

/// The first section from `from` on that `addr` lies in.
pub open spec fn section_of(sections: Seq<Section>, addr: usize, from: int) -> Option<int>
    decreases sections.len() - from,
{
    if !(0 <= from < sections.len()) {
        None
    } else if sections[from].holds(addr) {
        Some(from)
    } else {
        section_of(sections, addr, from + 1)
    }
}

/// What a listing is made of, as far as addresses are looked up in it.
pub struct Disassembly {
    /// Where execution starts.
    pub entrypoint: usize,
    /// The sections, in the order of the binary.
    pub sections: Vec<Section>,
}

impl Disassembly {
    /// The name of the first section that `addr` lies in.
    pub fn section(&self, addr: usize) -> (name: Option<&str>)
        ensures
            match section_of(self.sections@, addr, 0) {
                Some(i) => name matches Some(found) && found@ == self.sections@[i].name@,
                None => name.is_none(),
            },
    {
        let mut i: usize = 0;
        while i < self.sections.len()
            invariant
                i <= self.sections@.len(),
                section_of(self.sections@, addr, 0) == section_of(self.sections@, addr, i as int),
            decreases self.sections@.len() - i,
        {
            let section = &self.sections[i];
            if section.start <= addr && addr <= section.end {
                return Some(section.name.as_str());
            }
            i = i + 1;
        }
        None
    }
}

} // verus!
