use vstd::prelude::*;
use vstd::string::*;

use colored::Colorize;

verus! {

/// The escape codes that colored writes around text painted bold red.
pub open spec fn bold_red(s: Seq<char>) -> Seq<char> {
    seq!['\x1B', '[', '1', ';', '3', '1', 'm'] + s + seq!['\x1B', '[', '0', 'm']
}

/// One decorated character: painted where it is matched and the terminal
/// colouring was on (`lit`), left as it is otherwise.
pub open spec fn decorated_char(c: char, matched: bool, lit: bool) -> Seq<char> {
    if matched && lit {
        bold_red(seq![c])
    } else {
        seq![c]
    }
}

/// `text` with each character at a position listed in `indices` decorated, where
/// `lit[i]` tells whether colouring was applied to character `i`.
pub open spec fn decorated(text: Seq<char>, indices: Seq<usize>, lit: Seq<bool>) -> Seq<char>
    decreases text.len(),
{
    if text.len() == 0 {
        Seq::empty()
    } else {
        let i = text.len() - 1;
        decorated(text.drop_last(), indices, lit) + decorated_char(
            text[i],
            indices.contains(i as usize),
            lit[i],
        )
    }
}

/// Relies on colored's `red().bold()` with `to_string`: the character alone where
/// colouring is off (by the environment or by override), else the character
/// between the bold red code and the reset code.
#[verifier::external_body]
fn paint_bold_red(c: char) -> (r: String)
    ensures
        r@ == seq![c] || r@ == bold_red(seq![c]),
{
    c.to_string().red().bold().to_string()
}

/// Relies on colored's `normal()` with `to_string`: a string with no style is
/// written as it is.
#[verifier::external_body]
fn paint_normal(c: char) -> (r: String)
    ensures
        r@ == seq![c],
{
    c.to_string().normal().to_string()
}

fn lists_index(indices: &Vec<usize>, i: usize) -> (r: bool)
    ensures
        r == indices@.contains(i),
{
    let mut k: usize = 0;
    while k < indices.len()
        invariant
            k <= indices@.len(),
            forall|j: int| 0 <= j < k ==> indices@[j] != i,
        decreases indices@.len() - k,
    {
        if indices[k] == i {
            return true;
        }
        k = k + 1;
    }
    false
}

/// Decoration of text at matched character positions.
pub trait StrExt {
    spec fn text_view(&self) -> Seq<char>;

    /// The text with the characters at `indices` painted bold red, as far as
    /// the terminal colouring is on.
    fn colorize_matches(&self, indices: Vec<usize>) -> (r: String)
        ensures
            exists|lit: Seq<bool>|
                lit.len() == self.text_view().len() && r@ == decorated(
                    self.text_view(),
                    indices@,
                    lit,
                ),
    ;
}

impl StrExt for str {
    open spec fn text_view(&self) -> Seq<char> {
        self@
    }

    fn colorize_matches(&self, indices: Vec<usize>) -> (r: String) {
        let n = self.unicode_len();
        let mut out = String::new();
        let ghost mut lit: Seq<bool> = Seq::empty();
        let mut i: usize = 0;
        while i < n
            invariant
                n == self@.len(),
                i <= n,
                lit.len() == i,
                out@ == decorated(self@.take(i as int), indices@, lit),
            decreases n - i,
        {
            let c = self.get_char(i);
            let matched = lists_index(&indices, i);
            let piece = if matched {
                paint_bold_red(c)
            } else {
                paint_normal(c)
            };
            let ghost bit = matched && piece@ != seq![c];
            proof {
                let t = self@.take(i as int + 1);
                assert(t.drop_last() =~= self@.take(i as int));
                assert(t[i as int] == c);
                lemma_decorated_ignores_later(self@.take(i as int), indices@, lit, lit.push(bit));
            }
            out.append(piece.as_str());
            proof {
                lit = lit.push(bit);
            }
            i = i + 1;
        }
        proof {
            assert(self@.take(n as int) =~= self@);
            assert(lit.len() == self.text_view().len() && out@ == decorated(
                self.text_view(),
                indices@,
                lit,
            ));
        }
        out
    }
}

/// Colouring flags past the end of the text do not change its decoration.
proof fn lemma_decorated_ignores_later(
    text: Seq<char>,
    indices: Seq<usize>,
    a: Seq<bool>,
    b: Seq<bool>,
)
    requires
        text.len() <= a.len(),
        text.len() <= b.len(),
        forall|j: int| 0 <= j < text.len() ==> a[j] == b[j],
    ensures
        decorated(text, indices, a) == decorated(text, indices, b),
    decreases text.len(),
{
    if text.len() > 0 {
        lemma_decorated_ignores_later(text.drop_last(), indices, a, b);
    }
}

} // verus!
