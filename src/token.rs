//! The token stream that the parser reads: identifiers, single punctuation
//! characters, literals, and delimited groups of further tokens.
use vstd::prelude::*;
use vstd::string::*;

verus! {

#[derive(Debug, Clone, Copy, PartialEq, Eq, Structural)]
pub enum Delim {
    Paren,
    Brace,
    Bracket,
}

#[derive(Debug)]
pub enum Tok {
    Ident(String),
    /// A punctuation character; `true` when the next token follows it with no
    /// space (as `=` does in `=>`).
    Punct(char, bool),
    /// A literal, as written in the source.
    Lit(String),
    Group(Delim, Vec<Tok>),
}

pub open spec fn open_char(d: Delim) -> char {
    match d {
        Delim::Paren => '(',
        Delim::Brace => '{',
        Delim::Bracket => '[',
    }
}

pub open spec fn close_char(d: Delim) -> char {
    match d {
        Delim::Paren => ')',
        Delim::Brace => '}',
        Delim::Bracket => ']',
    }
}

/// Source text for one token, followed by a space unless it is a joint
/// punctuation character.
pub open spec fn render_tok(t: Tok) -> Seq<char>
    decreases t, 0nat,
{
    match t {
        Tok::Ident(s) => s@.push(' '),
        Tok::Lit(s) => s@.push(' '),
        Tok::Punct(c, joint) => if joint {
            seq![c]
        } else {
            seq![c, ' ']
        },
        Tok::Group(d, v) => seq![open_char(d), ' '] + render_prefix(v@, v@.len()) + seq![
            close_char(d),
            ' ',
        ],
    }
}

/// Source text for the first `n` tokens of `ts`.
pub open spec fn render_prefix(ts: Seq<Tok>, n: nat) -> Seq<char>
    decreases ts, n,
{
    if n == 0 || n > ts.len() {
        Seq::empty()
    } else {
        render_prefix(ts, (n - 1) as nat) + render_tok(ts[n - 1])
    }
}

/// Source text for a whole token sequence.
pub open spec fn render(ts: Seq<Tok>) -> Seq<char> {
    render_prefix(ts, ts.len())
}

/// Relies on String::push: appends one character.
#[verifier::external_body]
fn push_char(s: &mut String, c: char)
    ensures
        final(s)@ == old(s)@.push(c),
{
    s.push(c)
}

fn delim_chars(d: &Delim) -> (r: (char, char))
    ensures
        r == (open_char(*d), close_char(*d)),
{
    match d {
        Delim::Paren => ('(', ')'),
        Delim::Brace => ('{', '}'),
        Delim::Bracket => ('[', ']'),
    }
}

/// `render_prefix` reads only the first `n` tokens.
pub proof fn lemma_render_prefix_agree(a: Seq<Tok>, b: Seq<Tok>, n: nat)
    requires
        n <= a.len(),
        n <= b.len(),
        forall|k: int| 0 <= k < n ==> a[k] == b[k],
    ensures
        render_prefix(a, n) == render_prefix(b, n),
    decreases n,
{
    if n > 0 {
        lemma_render_prefix_agree(a, b, (n - 1) as nat);
    }
}

/// Appends the source text of the tokens `lo..hi` of `ts` to `out`.
pub fn render_range(ts: &Vec<Tok>, lo: usize, hi: usize, out: &mut String)
    requires
        lo <= hi <= ts@.len(),
    ensures
        final(out)@ == old(out)@ + render(ts@.subrange(lo as int, hi as int)),
    decreases ts,
{
    let ghost start = out@;
    let mut i: usize = lo;
    while i < hi
        invariant
            lo <= i <= hi <= ts@.len(),
            out@ == start + render(ts@.subrange(lo as int, i as int)),
        decreases hi - i,
    {
        let ghost before = out@;
        match &ts[i] {
            Tok::Ident(s) => {
                out.append(s.as_str());
                push_char(out, ' ');
            },
            Tok::Lit(s) => {
                out.append(s.as_str());
                push_char(out, ' ');
            },
            Tok::Punct(c, joint) => {
                push_char(out, *c);
                if !*joint {
                    push_char(out, ' ');
                }
            },
            Tok::Group(d, v) => {
                let (o, c) = delim_chars(d);
                push_char(out, o);
                push_char(out, ' ');
                render_range(v, 0, v.len(), out);
                assert(v@.subrange(0, v@.len() as int) =~= v@);
                push_char(out, c);
                push_char(out, ' ');
            },
        }
        proof {
            let a = ts@.subrange(lo as int, i + 1);
            let b = ts@.subrange(lo as int, i as int);
            lemma_render_prefix_agree(a, b, b.len());
            assert(out@ == before + render_tok(ts@[i as int]));
        }
        i = i + 1;
    }
}

/// The source text of the tokens `lo..hi` of `ts`.
pub fn render_text(ts: &Vec<Tok>, lo: usize, hi: usize) -> (r: String)
    requires
        lo <= hi <= ts@.len(),
    ensures
        r@ == render(ts@.subrange(lo as int, hi as int)),
{
    let mut out = String::new();
    render_range(ts, lo, hi, &mut out);
    out
}

} // verus!
