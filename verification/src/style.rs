use vstd::prelude::*;

verus! {

/// The terminal escape sequence that ends a colored span.
pub open spec fn reset_code() -> Seq<char> {
    seq!['\u{1b}', '[', '0', 'm']
}

/// The escape sequence for the foreground color with the given SGR digit
/// (`'1'` red, `'2'` green, `'3'` yellow, `'4'` blue, `'5'` purple, `'6'` cyan).
pub open spec fn color_code(d: char) -> Seq<char> {
    seq!['\u{1b}', '[', '3', d, 'm']
}

/// The escape sequence for gray text.
pub open spec fn gray_code() -> Seq<char> {
    seq!['\u{1b}', '[', '9', '0', 'm']
}

/// `s` between the escape sequence `code` and the reset sequence.
pub open spec fn painted(code: Seq<char>, s: Seq<char>) -> Seq<char> {
    code + s + reset_code()
}

fn paint(code: &str, s: &str) -> (r: String)
    ensures
        r@ == code@ + s@ + "\x1b[0m"@,
{
    let mut out = code.to_owned();
    out.append(s);
    out.append("\x1b[0m");
    out
}

/// `s` in cyan.
pub fn c(s: &str) -> (r: String)
    ensures
        r@ == painted(color_code('6'), s@),
{
    proof {
        reveal_strlit("\x1b[36m");
        reveal_strlit("\x1b[0m");
    }
    paint("\x1b[36m", s)
}

/// `s` in red.
pub fn r(s: &str) -> (out: String)
    ensures
        out@ == painted(color_code('1'), s@),
{
    proof {
        reveal_strlit("\x1b[31m");
        reveal_strlit("\x1b[0m");
    }
    paint("\x1b[31m", s)
}

/// `s` in green.
pub fn g(s: &str) -> (r: String)
    ensures
        r@ == painted(color_code('2'), s@),
{
    proof {
        reveal_strlit("\x1b[32m");
        reveal_strlit("\x1b[0m");
    }
    paint("\x1b[32m", s)
}

/// `s` in yellow.
pub fn y(s: &str) -> (r: String)
    ensures
        r@ == painted(color_code('3'), s@),
{
    proof {
        reveal_strlit("\x1b[33m");
        reveal_strlit("\x1b[0m");
    }
    paint("\x1b[33m", s)
}

/// `s` in blue.
pub fn b(s: &str) -> (r: String)
    ensures
        r@ == painted(color_code('4'), s@),
{
    proof {
        reveal_strlit("\x1b[34m");
        reveal_strlit("\x1b[0m");
    }
    paint("\x1b[34m", s)
}

/// `s` in purple.
pub fn p(s: &str) -> (r: String)
    ensures
        r@ == painted(color_code('5'), s@),
{
    proof {
        reveal_strlit("\x1b[35m");
        reveal_strlit("\x1b[0m");
    }
    paint("\x1b[35m", s)
}

/// `s` in gray.
pub fn gr(s: &str) -> (r: String)
    ensures
        r@ == painted(gray_code(), s@),
{
    proof {
        reveal_strlit("\x1b[90m");
        reveal_strlit("\x1b[0m");
    }
    paint("\x1b[90m", s)
}

} // verus!
