//! A check of the nesting of a sequence of token texts.
use crate::text::{chars_of, views};
use vstd::prelude::*;

verus! {

/// Why a sequence of token texts is refused.
#[derive(Debug, PartialEq)]
pub enum SyntaxError {
    InvalidSyntax(String),
    InvalidSymbol(String),
}

/// A refusal as a value.
pub enum SyntaxErrorView {
    InvalidSyntax(Seq<char>),
    InvalidSymbol(Seq<char>),
}

impl View for SyntaxError {
    type V = SyntaxErrorView;

    open spec fn view(&self) -> SyntaxErrorView {
        match self {
            SyntaxError::InvalidSyntax(m) => SyntaxErrorView::InvalidSyntax(m@),
            SyntaxError::InvalidSymbol(m) => SyntaxErrorView::InvalidSymbol(m@),
        }
    }
}

/// The texts that delimit: the two parentheses, the double quote and the
/// backslash.
pub open spec fn is_delimiter(token: Seq<char>) -> bool {
    token == seq!['('] || token == seq![')'] || token == seq!['"'] || token == seq!['\\']
}

/// The delimiters of the language.
pub struct Delimiter {}

impl Delimiter {
    /// Whether the text is a delimiter.
    pub fn is(token: &str) -> (r: bool)
        ensures
            r == is_delimiter(token@),
    {
        let chars = chars_of(token);
        let r = chars.len() == 1 && (chars[0] == '(' || chars[0] == ')' || chars[0] == '"'
            || chars[0] == '\\');
        assert(r == (chars@ =~= seq!['('] || chars@ =~= seq![')'] || chars@ =~= seq!['"'] || chars@
            =~= seq!['\\']));
        r
    }
}

/// The refusal of a text that stands outside every list and opens none.
pub open spec fn outside_list() -> SyntaxErrorView {
    SyntaxErrorView::InvalidSyntax("Expected '(' at the start of an expression."@)
}

/// The refusal of a quote or a backslash inside a list.
pub open spec fn stray_delimiter() -> SyntaxErrorView {
    SyntaxErrorView::InvalidSymbol("Expected '(', ')' or a symbol inside a list."@)
}

/// The refusal of texts that end inside a list.
pub open spec fn unclosed_list() -> SyntaxErrorView {
    SyntaxErrorView::InvalidSyntax("Unbalanced delimiter somewhere in user input"@)
}

/// The number of open lists after one more text, which stands where `depth`
/// lists are open. Outside every list only an opening parenthesis may stand;
/// inside one, the parentheses and whatever is no delimiter.
pub open spec fn syntax_step(depth: nat, token: Seq<char>) -> Result<nat, SyntaxErrorView> {
    if depth == 0 {
        if token == seq!['('] {
            Ok(1)
        } else {
            Err(outside_list())
        }
    } else if token == seq!['('] {
        Ok(depth + 1)
    } else if token == seq![')'] {
        Ok((depth - 1) as nat)
    } else if !is_delimiter(token) {
        Ok(depth)
    } else {
        Err(stray_delimiter())
    }
}

/// The number of open lists after the first `n` texts, or the first refusal
/// among them.
pub open spec fn syntax_depth(tokens: Seq<Seq<char>>, n: nat) -> Result<nat, SyntaxErrorView>
    decreases n,
{
    if n == 0 {
        Ok(0)
    } else {
        match syntax_depth(tokens, (n - 1) as nat) {
            Ok(depth) => syntax_step(depth, tokens[n - 1]),
            Err(e) => Err(e),
        }
    }
}

/// Whether the texts nest well: none is refused where it stands, and every
/// list is closed at the end.
pub open spec fn verify_syntax_spec(tokens: Seq<Seq<char>>) -> Result<(), SyntaxErrorView> {
    match syntax_depth(tokens, tokens.len()) {
        Ok(depth) => if depth == 0 {
            Ok(())
        } else {
            Err(unclosed_list())
        },
        Err(e) => Err(e),
    }
}

/// A refusal among the first `n` texts is the refusal of every longer prefix.
proof fn lemma_refusal_stays(tokens: Seq<Seq<char>>, n: nat, m: nat)
    requires
        n <= m,
        syntax_depth(tokens, n) is Err,
    ensures
        syntax_depth(tokens, m) == syntax_depth(tokens, n),
    decreases m,
{
    if n < m {
        lemma_refusal_stays(tokens, n, (m - 1) as nat);
    }
}

/// The number of open lists is never more than the number of texts read.
proof fn lemma_depth_bound(tokens: Seq<Seq<char>>, n: nat)
    ensures
        syntax_depth(tokens, n) matches Ok(depth) ==> depth <= n,
    decreases n,
{
    if n > 0 {
        lemma_depth_bound(tokens, (n - 1) as nat);
    }
}

/// Checks that the texts of a sequence of tokens nest well.
pub fn verify_syntax(tokens: &[String]) -> (r: Result<(), SyntaxError>)
    ensures
        match verify_syntax_spec(views(tokens@)) {
            Ok(_) => r is Ok,
            Err(e) => r matches Err(x) && x@ == e,
        },
{
    let ghost texts = views(tokens@);
    let mut depth: usize = 0;
    let mut i: usize = 0;
    while i < tokens.len()
        invariant
            i <= tokens.len(),
            texts == views(tokens@),
            syntax_depth(texts, i as nat) == Ok::<nat, SyntaxErrorView>(depth as nat),
        decreases tokens.len() - i,
    {
        proof {
            lemma_depth_bound(texts, i as nat);
        }
        assert(texts[i as int] == tokens@[i as int]@);
        let chars = chars_of(tokens[i].as_str());
        let open = chars.len() == 1 && chars[0] == '(';
        let close = chars.len() == 1 && chars[0] == ')';
        assert(open == (chars@ =~= seq!['(']));
        assert(close == (chars@ =~= seq![')']));
        if depth == 0 {
            if open {
                depth = 1;
            } else {
                proof {
                    lemma_refusal_stays(texts, (i + 1) as nat, texts.len());
                }
                return Err(
                    SyntaxError::InvalidSyntax(
                        String::from_str("Expected '(' at the start of an expression."),
                    ),
                );
            }
        } else if open {
            depth = depth + 1;
        } else if close {
            depth = depth - 1;
        } else if Delimiter::is(tokens[i].as_str()) {
            proof {
                lemma_refusal_stays(texts, (i + 1) as nat, texts.len());
            }
            return Err(
                SyntaxError::InvalidSymbol(
                    String::from_str("Expected '(', ')' or a symbol inside a list."),
                ),
            );
        }
        i += 1;
    }
    if depth != 0 {
        return Err(
            SyntaxError::InvalidSyntax(String::from_str("Unbalanced delimiter somewhere in user input")),
        );
    }
    Ok(())
}

} // verus!
