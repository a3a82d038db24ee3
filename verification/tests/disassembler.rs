use bite::disassembler::{
    jump_target, Block, Disassembly, DisassemblyView, Section, Token, JUMP_ATTEMPTS,
};

#[test]
fn block_token_offsets() {
    let block = Block { addr: 0, line_count: 1, tokens: vec![Token::from_str("\n")] };

    assert_eq!(block.with_offset(0), Some((0, 0)));

    let block = Block { addr: 0, line_count: 0, tokens: vec![Token::from_str("")] };

    assert_eq!(block.with_offset(1), None);

    let block =
        Block { addr: 0, line_count: 1, tokens: vec![Token::from_str(""), Token::from_str("\n")] };

    assert_eq!(block.with_offset(0), Some((1, 0)));

    let block = Block {
        addr: 0,
        line_count: 1,
        tokens: vec![Token::from_str("a"), Token::from_str("a\n")],
    };

    assert_eq!(block.with_offset(0), Some((0, 0)));

    let block = Block {
        addr: 0,
        line_count: 2,
        tokens: vec![Token::from_str("what\n"), Token::from_str("a\n")],
    };

    assert_eq!(block.with_offset(1), Some((1, 0)));

    let block = Block {
        addr: 0,
        line_count: 3,
        tokens: vec![Token::from_str("wh\nat\n"), Token::from_str("a\n")],
    };

    assert_eq!(block.with_offset(0), Some((0, 0)));
    assert_eq!(block.with_offset(1), Some((0, 3)));
    assert_eq!(block.with_offset(2), Some((1, 0)));
    assert_eq!(block.with_offset(3), None);

    let block = Block {
        addr: 0,
        line_count: 3,
        tokens: vec![Token::from_str("\n<\n"), Token::from_str("abc>:\n")],
    };

    assert_eq!(block.with_offset(0), Some((0, 0)));
    assert_eq!(block.with_offset(1), Some((0, 1)));
    assert_eq!(block.with_offset(2), Some((1, 0)));

    let block = Block {
        addr: 0,
        line_count: 3,
        tokens: vec![Token::from_str("\n"), Token::from_str("<function>:\n")],
    };

    assert_eq!(block.with_offset(0), Some((0, 0)));
    assert_eq!(block.with_offset(1), Some((1, 0)));
    assert_eq!(block.with_offset(2), None);
}

#[test]
fn block_without_tokens_has_no_lines() {
    let block = Block { addr: 7, line_count: 4, tokens: Vec::new() };
    assert_eq!(block.with_offset(0), None);
    assert_eq!(block.with_offset(3), None);
    assert_eq!(block.with_offset(4), None);
}

#[test]
fn block_line_begins_behind_the_line_feed() {
    let block = Block {
        addr: 0,
        line_count: 10,
        tokens: vec![Token::from_str("a\n"), Token::from_str(""), Token::from_str("\n\nb")],
    };
    assert_eq!(block.with_offset(0), Some((0, 0)));
    assert_eq!(block.with_offset(1), Some((2, 0)));
    assert_eq!(block.with_offset(2), Some((2, 1)));
    assert_eq!(block.with_offset(3), Some((2, 2)));
    assert_eq!(block.with_offset(4), None);
    let counted_short = Block { addr: 0, line_count: 1, tokens: vec![Token::from_str("a\nb")] };
    assert_eq!(counted_short.with_offset(1), None);
}


fn block(addr: usize, line_count: usize) -> Block {
    let text = "x\n".repeat(line_count);
    Block { addr, line_count, tokens: vec![Token::from_str(&text)] }
}

fn view(lines: &[usize]) -> DisassemblyView {
    let mut view = DisassemblyView::new();
    view.blocks = lines.iter().enumerate().map(|(i, n)| block(0x1000 + 4 * i, *n)).collect();
    view.line_count = lines.iter().sum();
    view.addr = 0x1000;
    view
}

fn place(view: &DisassemblyView) -> (usize, usize, usize, usize) {
    (view.block_offset, view.block_line_offset, view.line_offset, view.addr())
}

#[test]
fn new_view_is_empty() {
    let view = DisassemblyView::new();
    assert_eq!(view.addr(), 0);
    assert!(view.blocks.is_empty());
    assert_eq!((view.block_offset, view.block_line_offset, view.line_offset), (0, 0, 0));
    assert_eq!((view.line_count, view.max_lines), (0, 0));
}

#[test]
fn scroll_down_walks_the_lines() {
    let mut v = view(&[1, 3, 2]);
    v.scroll_down(0);
    assert_eq!(place(&v), (0, 0, 0, 0x1000));
    v.scroll_down(1);
    assert_eq!(place(&v), (1, 0, 1, 0x1004));
    v.scroll_down(1);
    assert_eq!(place(&v), (1, 1, 2, 0x1004));
    v.scroll_down(2);
    assert_eq!(place(&v), (2, 0, 4, 0x1008));
    v.scroll_down(1);
    assert_eq!(place(&v), (2, 1, 5, 0x1008));

    let mut v = view(&[1, 3, 2]);
    v.scroll_down(5);
    assert_eq!(place(&v), (2, 1, 5, 0x1008));
    assert_eq!(v.blocks.len(), 3);
    assert_eq!(v.line_count, 6);
}

#[test]
fn scroll_up_walks_back() {
    let mut v = view(&[1, 3, 2]);
    v.scroll_down(5);
    v.scroll_up(0);
    assert_eq!(place(&v), (2, 1, 5, 0x1008));
    v.scroll_up(1);
    assert_eq!(place(&v), (2, 0, 4, 0x1008));
    v.scroll_up(1);
    assert_eq!(place(&v), (1, 2, 3, 0x1004));
    v.scroll_up(3);
    assert_eq!(place(&v), (0, 0, 0, 0x1000));

    let mut v = view(&[2, 2]);
    v.scroll_down(3);
    assert_eq!(place(&v), (1, 1, 3, 0x1004));
    v.scroll_up(3);
    assert_eq!(place(&v), (0, 0, 0, 0x1000));
}

#[test]
fn scrolling_there_and_back_ends_where_it_began() {
    for down in 0..10 {
        for up in 0..=down {
            let mut v = view(&[3, 1, 4, 2]);
            v.scroll_down(down);
            v.scroll_up(up);
            let mut straight = view(&[3, 1, 4, 2]);
            straight.scroll_down(down - up);
            assert_eq!(place(&v), place(&straight));
        }
    }
}

#[test]
fn max_lines_follows_only_larger_changes() {
    let mut v = view(&[1]);
    assert!(v.set_max_lines(40));
    assert_eq!(v.max_lines, 40);
    assert!(!v.set_max_lines(42));
    assert!(!v.set_max_lines(38));
    assert!(!v.set_max_lines(40));
    assert_eq!(v.max_lines, 40);
    assert!(v.set_max_lines(43));
    assert_eq!(v.max_lines, 43);
    assert!(v.set_max_lines(40));
    assert_eq!(v.max_lines, 40);
    assert!(v.set_max_lines(0));
    assert!(!v.set_max_lines(2));
    assert!(v.set_max_lines(usize::MAX));
    assert_eq!(v.max_lines, usize::MAX);
}

#[test]
fn jump_tries_forwards_then_backwards() {
    assert_eq!(JUMP_ATTEMPTS, 32);
    let tried: Vec<usize> = (0..JUMP_ATTEMPTS).map(|k| jump_target(100, k)).collect();
    let expected: Vec<usize> = (100..116).chain((84..100).rev()).collect();
    assert_eq!(tried, expected);
    assert_eq!(jump_target(3, 16), 2);
    assert_eq!(jump_target(3, 18), 0);
    assert_eq!(jump_target(3, 19), 0);
    assert_eq!(jump_target(3, 31), 0);
    assert_eq!(jump_target(usize::MAX - 2, 2), usize::MAX);
    assert_eq!(jump_target(usize::MAX - 2, 3), usize::MAX);
    assert_eq!(jump_target(usize::MAX, 15), usize::MAX);
    assert_eq!(jump_target(usize::MAX, 16), usize::MAX - 1);
}

#[test]
fn jump_lands_on_the_first_line() {
    let mut v = view(&[1, 3, 2]);
    v.scroll_down(2);
    v.jump(0x2000);
    assert_eq!(v.addr(), 0x2000);
    assert_eq!(v.block_line_offset, 0);
    assert_eq!((v.block_offset, v.line_offset), (1, 2));
}

fn section(name: &str, start: usize, end: usize) -> Section {
    Section { name: name.to_string(), bytes: Vec::new(), start, end }
}

#[test]
fn section_is_the_first_that_holds_the_address() {
    let listing = Disassembly {
        entrypoint: 0x1000,
        sections: vec![
            section(".text", 0x1000, 0x1fff),
            section(".data", 0x3000, 0x3fff),
            section(".overlap", 0x1800, 0x37ff),
        ],
    };
    assert_eq!(listing.section(0x1000), Some(".text"));
    assert_eq!(listing.section(0x1fff), Some(".text"));
    assert_eq!(listing.section(0x1800), Some(".text"));
    assert_eq!(listing.section(0x2000), Some(".overlap"));
    assert_eq!(listing.section(0x3000), Some(".data"));
    assert_eq!(listing.section(0x3fff), Some(".data"));
    assert_eq!(listing.section(0x4000), None);
    assert_eq!(listing.section(0xfff), None);
    let none = Disassembly { entrypoint: 0, sections: Vec::new() };
    assert_eq!(none.section(0), None);
}
