//! Laws of the scanner, stated over the scanning relation `spec_scan` and
//! proved once and for all.

use vstd::prelude::*;
use crate::token::TokenModel;
use crate::lexer::is_space;
use crate::lexer::ws_end;
use crate::lexer::quote_end;
use crate::lexer::line_end;
use crate::lexer::block_end;
use crate::lexer::spec_scan;
use crate::lexer::ScanStep;

verus! {

proof fn lemma_ws_end_all(s: Seq<char>, i: int)
    requires
        0 <= i <= s.len(),
        forall|k: int| i <= k < s.len() ==> is_space(s[k]),
    ensures
        ws_end(s, i) == s.len(),
    decreases s.len() - i,
{
    if i < s.len() {
        lemma_ws_end_all(s, i + 1);
    }
}

proof fn lemma_quote_end_finds(s: Seq<char>, i: int, j: int)
    requires
        0 <= i <= j < s.len(),
        forall|k: int| i <= k < j ==> s[k] != '"',
        s[j] == '"',
    ensures
        quote_end(s, i) == j,
    decreases j - i,
{
    if i < j {
        lemma_quote_end_finds(s, i + 1, j);
    }
}

proof fn lemma_line_end_none(s: Seq<char>, i: int)
    requires
        0 <= i <= s.len(),
        forall|k: int| i <= k < s.len() ==> s[k] != '\n',
    ensures
        line_end(s, i) == s.len(),
    decreases s.len() - i,
{
    if i < s.len() {
        lemma_line_end_none(s, i + 1);
    }
}

/// Law: a source consisting only of whitespace scans to `EndOfFile` on the
/// first call.
pub proof fn lemma_whitespace_scans_to_eof(s: Seq<char>)
    requires
        forall|k: int| 0 <= k < s.len() ==> is_space(s[k]),
    ensures
        spec_scan(s, 0) == (ScanStep::Token {
            t: TokenModel::EndOfFile,
            end: s.len() as int,
        }),
{
    lemma_ws_end_all(s, 0);
}

/// Law: a quoted literal whose body holds no quote scans to exactly that
/// body, and the cursor lands right after the closing quote, whatever
/// input follows it.
pub proof fn lemma_string_literal_round_trip(body: Seq<char>, rest: Seq<char>)
    requires
        forall|k: int| 0 <= k < body.len() ==> body[k] != '"',
    ensures
        ({
            let s = seq!['"'] + body + seq!['"'] + rest;
            spec_scan(s, 0) == (ScanStep::Token {
                t: TokenModel::StringLiteral(body),
                end: body.len() as int + 2,
            })
        }),
{
    let s = seq!['"'] + body + seq!['"'] + rest;
    assert(s[0] == '"');
    assert(ws_end(s, 0) == 0);
    assert(forall|k: int| 1 <= k < 1 + body.len() ==> s[k] == body[k - 1]);
    assert(s[body.len() as int + 1] == '"');
    lemma_quote_end_finds(s, 1, body.len() as int + 1);
    assert(s.subrange(1, body.len() as int + 1) =~= body);
}

/// Law: a line comment running to end of input scans to exactly its body,
/// with no line feed consumed or invented, for any body characters.
pub proof fn lemma_line_comment_exact(body: Seq<char>)
    requires
        forall|k: int| 0 <= k < body.len() ==> body[k] != '\n',
    ensures
        ({
            let s = seq!['/', '/'] + body;
            spec_scan(s, 0) == (ScanStep::Token {
                t: TokenModel::Comment(body),
                end: body.len() as int + 2,
            })
        }),
{
    let s = seq!['/', '/'] + body;
    assert(s[0] == '/');
    assert(s[1] == '/');
    assert(ws_end(s, 0) == 0);
    assert(forall|k: int| 2 <= k < s.len() ==> s[k] == body[k - 2]);
    lemma_line_end_none(s, 2);
    assert(s.subrange(2, s.len() as int) =~= body);
}

proof fn lemma_block_end_finds(s: Seq<char>, i: int, j: int)
    requires
        0 <= i <= j,
        j + 1 < s.len(),
        forall|k: int| i <= k < j ==> !(#[trigger] s[k] == '*' && s[k + 1] == '/'),
        s[j] == '*',
        s[j + 1] == '/',
    ensures
        block_end(s, i) == j,
    decreases j - i,
{
    if i < j {
        lemma_block_end_finds(s, i + 1, j);
    }
}

/// Law: a delimited block comment whose body holds no `*/` scans to exactly
/// that body, and the closing delimiter is consumed, for any body
/// characters.
pub proof fn lemma_block_comment_exact(body: Seq<char>)
    requires
        forall|k: int| 0 <= k < body.len() - 1 ==> !(#[trigger] body[k] == '*' && body[k + 1] == '/'),
    ensures
        ({
            let s = seq!['/', '*'] + body + seq!['*', '/'];
            spec_scan(s, 0) == (ScanStep::Token {
                t: TokenModel::BlockComment(body),
                end: body.len() as int + 4,
            })
        }),
{
    let s = seq!['/', '*'] + body + seq!['*', '/'];
    let n: int = body.len() as int;
    assert(s.len() == n + 4);
    assert(s[0] == '/');
    assert(s[1] == '*');
    assert(ws_end(s, 0) == 0);
    assert(forall|k: int| 2 <= k < n + 2 ==> s[k] == body[k - 2]);
    assert(s[n + 2] == '*');
    assert(s[n + 3] == '/');
    assert forall|k: int| 2 <= k < n + 2 implies !(#[trigger] s[k] == '*' && s[k + 1] == '/') by {
        if k < n + 1 {
            assert(s[k] == body[k - 2] && s[k + 1] == body[k - 1]);
        } else {
            assert(s[k + 1] == '*');
        }
    }
    lemma_block_end_finds(s, 2, n + 2);
    assert(s.subrange(2, n + 2) =~= body);
}

} // verus!
