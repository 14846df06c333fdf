use vstd::prelude::*;
use vstd::string::StrSliceExecFns;
use crate::parser::{leaves, Expr, Leaf, Statement};

verus! {

/// The index of the first dot at or after `i`, or the length.
pub open spec fn first_dot(t: Seq<char>, i: int) -> int
    decreases t.len() - i,
{
    if 0 <= i < t.len() && t[i] != '.' {
        first_dot(t, i + 1)
    } else {
        i
    }
}

pub open spec fn trim_leading_zeros(t: Seq<char>) -> Seq<char>
    decreases t.len(),
{
    if t.len() > 0 && t[0] == '0' {
        trim_leading_zeros(t.drop_first())
    } else {
        t
    }
}

pub open spec fn trim_trailing_zeros(t: Seq<char>) -> Seq<char>
    decreases t.len(),
{
    if t.len() > 0 && t.last() == '0' {
        trim_trailing_zeros(t.drop_last())
    } else {
        t
    }
}

/// The decimal text of a number literal's value: the whole part without
/// leading zeros (`0` if nothing is left), then, if the fraction has a digit
/// other than a trailing zero, a dot and the fraction without trailing zeros.
/// So an integral value shows no fractional part: `3.0` shows as `3`.
/// The value is exact, as written: up to 15 significant digits this is also
/// how a 64-bit float of the literal prints, but longer literals are not
/// rounded as a float would be (`12345678901234567890` stays as it is, where
/// a float prints `12345678901234567000`).
pub open spec fn render_number(t: Seq<char>) -> Seq<char> {
    let d = first_dot(t, 0);
    let whole = trim_leading_zeros(t.take(d));
    let frac = if d < t.len() { trim_trailing_zeros(t.skip(d + 1)) } else { Seq::empty() };
    let w = if whole.len() == 0 { seq!['0'] } else { whole };
    if frac.len() == 0 { w } else { w + seq!['.'] + frac }
}

/// The text an argument shows as; an identifier shows its own name.
pub open spec fn render_leaf(l: Leaf) -> Seq<char> {
    match l {
        Leaf::StringLiteral(v) => v,
        Leaf::Number(v) => render_number(v),
        Leaf::Identifier(v) => v,
    }
}

/// The words joined by single spaces.
pub open spec fn join(ws: Seq<Seq<char>>) -> Seq<char>
    decreases ws.len(),
{
    if ws.len() == 0 {
        Seq::empty()
    } else if ws.len() == 1 {
        ws[0]
    } else {
        join(ws.drop_last()) + seq![' '] + ws.last()
    }
}

/// The output line of a `show` statement with these arguments.
pub open spec fn render_line(args: Seq<Leaf>) -> Seq<char> {
    join(args.map_values(|l: Leaf| render_leaf(l)))
}

/// Appends the characters `lo..hi` of `t` to `out`.
fn push_range(out: &mut String, t: &str, lo: usize, hi: usize)
    requires
        lo <= hi <= t@.len(),
    ensures
        final(out)@ == old(out)@ + t@.subrange(lo as int, hi as int),
{
    let mut i = lo;
    while i < hi
        invariant
            lo <= i <= hi <= t@.len(),
            out@ == old(out)@ + t@.subrange(lo as int, i as int),
        decreases hi - i,
    {
        out.push(t.get_char(i));
        i += 1;
        assert(out@ =~= old(out)@ + t@.subrange(lo as int, i as int));
    }
}

/// The decimal text of a number literal's exact value (see `render_number`).
pub fn format_number(text: &String) -> (r: String)
    ensures
        r@ == render_number(text@),
{
    let t = text.as_str();
    let ghost s = t@;
    let n = t.unicode_len();
    let mut d: usize = 0;
    while d < n && t.get_char(d) != '.'
        invariant
            n == s.len(),
            t@ == s,
            d <= n,
            first_dot(s, 0) == first_dot(s, d as int),
        decreases n - d,
    {
        d += 1;
    }
    let mut a: usize = 0;
    assert(s.subrange(0, d as int) =~= s.take(d as int));
    while a < d && t.get_char(a) == '0'
        invariant
            n == s.len(),
            t@ == s,
            a <= d <= n,
            trim_leading_zeros(s.take(d as int)) == trim_leading_zeros(
                s.subrange(a as int, d as int),
            ),
        decreases d - a,
    {
        assert(s.subrange(a as int, d as int).drop_first() =~= s.subrange(a + 1, d as int));
        a += 1;
    }
    assert(a < d ==> s.subrange(a as int, d as int)[0] != '0');
    assert(trim_leading_zeros(s.take(d as int)) == s.subrange(a as int, d as int));
    let mut b: usize = n;
    if d < n {
        assert(s.subrange(d + 1, n as int) =~= s.skip(d + 1));
        while b > d + 1 && t.get_char(b - 1) == '0'
            invariant
                n == s.len(),
                t@ == s,
                d < n,
                d + 1 <= b <= n,
                trim_trailing_zeros(s.skip(d + 1)) == trim_trailing_zeros(
                    s.subrange(d + 1, b as int),
                ),
            decreases b,
        {
            assert(s.subrange(d + 1, b as int).drop_last() =~= s.subrange(d + 1, b - 1));
            b -= 1;
        }
        assert(trim_trailing_zeros(s.skip(d + 1)) == s.subrange(d + 1, b as int));
    }
    let mut out = String::new();
    if a == d {
        out.push('0');
    } else {
        push_range(&mut out, t, a, d);
    }
    let ghost w = out@;
    assert(w == (if a == d { seq!['0'] } else { s.subrange(a as int, d as int) }));
    if d < n && b > d + 1 {
        out.push('.');
        push_range(&mut out, t, d + 1, b);
        assert(out@ =~= w + seq!['.'] + s.subrange(d + 1, b as int));
    }
    out
}

/// Executes statements. It holds no state: nothing persists from one
/// statement to the next.
pub struct Interpreter;

impl Interpreter {
    pub fn new() -> (r: Self) {
        Interpreter
    }

    /// The line that a statement writes.
    pub fn interpret(&self, node: Statement) -> (r: String)
        ensures
            r@ == render_line(node@),
    {
        match node {
            Statement::Show(args) => self.execute_show(args),
        }
    }

    /// The values of the arguments, shown in order and joined by single spaces.
    pub fn execute_show(&self, args: Vec<Expr>) -> (r: String)
        ensures
            r@ == render_line(leaves(args@)),
    {
        let ghost ws = leaves(args@).map_values(|l: Leaf| render_leaf(l));
        let mut out = String::new();
        let mut i: usize = 0;
        while i < args.len()
            invariant
                i <= args.len(),
                ws == leaves(args@).map_values(|l: Leaf| render_leaf(l)),
                out@ == join(ws.take(i as int)),
            decreases args.len() - i,
        {
            let piece = match &args[i] {
                Expr::StringLiteral(v) => v.clone(),
                Expr::Number(v) => format_number(v),
                Expr::Identifier(v) => v.clone(),
            };
            assert(piece@ == ws[i as int]);
            let ghost before = out@;
            if i > 0 {
                out.push(' ');
            }
            let p = piece.as_str();
            push_range(&mut out, p, 0, p.unicode_len());
            assert(p@.subrange(0, p@.len() as int) =~= p@);
            i += 1;
            assert(ws.take(i as int).drop_last() =~= ws.take(i - 1));
            if i > 1 {
                assert(out@ =~= before + seq![' '] + ws[i - 1]);
            } else {
                assert(out@ =~= ws[0]);
            }
        }
        assert(ws.take(i as int) =~= ws);
        out
    }
}

} // verus!
