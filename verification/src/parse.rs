//! The command parser.  A submitted line holds statements separated by `;`
//! or newlines; a statement is a bare command name, whitespace-separated
//! arguments (bare or single-quoted), and an optional trailing `&` marking
//! the command as a background one.  Parsing either yields the list of
//! commands in order, or fails for the whole line with the position of the
//! offending character.

use vstd::prelude::*;
use vstd::string::StrSliceExecFns;
use vstd::string::StringExecFns;

use crate::run::Builtins;
use crate::run::classify_builtin;
use crate::run::classify_name;
use crate::text::push_char;

verus! {

/// Whitespace inside a statement.
pub open spec fn is_ws_char(c: char) -> bool {
    c == ' ' || c == '\t'
}

/// A statement separator.
pub open spec fn is_sep_char(c: char) -> bool {
    c == ';' || c == '\n'
}

/// A character that may stand in a bare (unquoted) token.
pub open spec fn is_bare_char(c: char) -> bool {
    !is_ws_char(c) && !is_sep_char(c) && c != '&' && c != '\''
}

/// One token of a line, with the position where it starts.
pub enum Tok {
    Word { text: Seq<char>, at: int, quoted: bool },
    Sep,
    Bg { at: int },
}

/// The text of a word token.
pub open spec fn tok_text(t: Tok) -> Seq<char> {
    match t {
        Tok::Word { text, .. } => text,
        _ => Seq::empty(),
    }
}

/// The position of the first quote character at or after `i`, if any.
pub open spec fn find_quote(s: Seq<char>, i: int) -> Option<int>
    decreases s.len() - i,
{
    if i < 0 || i >= s.len() {
        None
    } else if s[i] == '\'' {
        Some(i)
    } else {
        find_quote(s, i + 1)
    }
}

pub proof fn lemma_find_quote(s: Seq<char>, i: int)
    requires
        0 <= i <= s.len(),
    ensures
        match find_quote(s, i) {
            Some(j) => i <= j < s.len() && s[j] == '\'' && forall|k: int|
                i <= k < j ==> s[k] != '\'',
            None => forall|k: int| i <= k < s.len() ==> s[k] != '\'',
        },
    decreases s.len() - i,
{
    if i < s.len() && s[i] != '\'' {
        lemma_find_quote(s, i + 1);
    }
}

/// Where the bare token starting at `i` ends: the first position at or
/// after `i` that holds no bare character.
pub open spec fn bare_end(s: Seq<char>, i: int) -> int
    decreases s.len() - i,
{
    if i < 0 || i >= s.len() || !is_bare_char(s[i]) {
        i
    } else {
        bare_end(s, i + 1)
    }
}

pub proof fn lemma_bare_end(s: Seq<char>, i: int)
    requires
        0 <= i <= s.len(),
    ensures
        i <= bare_end(s, i) <= s.len(),
        forall|k: int| i <= k < bare_end(s, i) ==> is_bare_char(s[k]),
        bare_end(s, i) < s.len() ==> !is_bare_char(s[bare_end(s, i)]),
        i < s.len() && is_bare_char(s[i]) ==> bare_end(s, i) > i,
    decreases s.len() - i,
{
    if i < s.len() && is_bare_char(s[i]) {
        lemma_bare_end(s, i + 1);
    }
}

/// The tokens of `s` from position `i` on, or the position where lexing
/// fails (an unterminated quote).
pub open spec fn toks_from(s: Seq<char>, i: int) -> Result<Seq<Tok>, int>
    decreases s.len() - i,
    when 0 <= i <= s.len()
{
    if i >= s.len() {
        Ok(Seq::empty())
    } else if is_ws_char(s[i]) {
        toks_from(s, i + 1)
    } else if is_sep_char(s[i]) {
        match toks_from(s, i + 1) {
            Ok(ts) => Ok(seq![Tok::Sep] + ts),
            Err(p) => Err(p),
        }
    } else if s[i] == '&' {
        match toks_from(s, i + 1) {
            Ok(ts) => Ok(seq![Tok::Bg { at: i }] + ts),
            Err(p) => Err(p),
        }
    } else if s[i] == '\'' {
        match find_quote(s, i + 1) {
            None => Err(i),
            Some(j) => {
                proof {
                    lemma_find_quote(s, i + 1);
                }
                match toks_from(s, j + 1) {
                    Ok(ts) => Ok(
                        seq![Tok::Word { text: s.subrange(i + 1, j), at: i, quoted: true }] + ts,
                    ),
                    Err(p) => Err(p),
                }
            },
        }
    } else {
        let j = bare_end(s, i);
        proof {
            lemma_bare_end(s, i);
        }
        match toks_from(s, j) {
            Ok(ts) => Ok(seq![Tok::Word { text: s.subrange(i, j), at: i, quoted: false }] + ts),
            Err(p) => Err(p),
        }
    }
}

/// The mathematical shape of one parsed command.
#[verifier::ext_equal]
pub struct CmdModel {
    pub name: Seq<char>,
    pub args: Seq<Seq<char>>,
    pub bg: bool,
    pub builtin: Builtins,
}

/// How many word tokens stand in a row from position `i` on.
pub open spec fn leading_words(ts: Seq<Tok>, i: int) -> int
    decreases ts.len() - i,
{
    if i < 0 || i >= ts.len() {
        0
    } else if ts[i] is Word {
        1 + leading_words(ts, i + 1)
    } else {
        0
    }
}

pub proof fn lemma_leading_words(ts: Seq<Tok>, i: int)
    requires
        0 <= i <= ts.len(),
    ensures
        0 <= leading_words(ts, i),
        i + leading_words(ts, i) <= ts.len(),
        forall|x: int| i <= x < i + leading_words(ts, i) ==> ts[x] is Word,
        i + leading_words(ts, i) < ts.len() ==> !(ts[i + leading_words(ts, i)] is Word),
        i < ts.len() && ts[i] is Word ==> leading_words(ts, i) >= 1,
    decreases ts.len() - i,
{
    if i < ts.len() && ts[i] is Word {
        lemma_leading_words(ts, i + 1);
    }
}

/// The command built from the `k` word tokens that start at position `i`.
pub open spec fn cmd_at(ts: Seq<Tok>, i: int, k: int, bg: bool) -> CmdModel {
    CmdModel {
        name: tok_text(ts[i]),
        args: Seq::new((k - 1) as nat, |m: int| tok_text(ts[i + 1 + m])),
        bg: bg,
        builtin: classify_name(tok_text(ts[i])),
    }
}

/// Groups the tokens from position `i` on into commands: statements are
/// separated by separator tokens, a statement is a run of words whose first
/// word is bare (it is the command name), and a background token may only
/// close a statement.  Fails with the position of the offending token.
pub open spec fn group_from(ts: Seq<Tok>, i: int) -> Result<Seq<CmdModel>, int>
    decreases ts.len() - i,
    when 0 <= i <= ts.len()
{
    if i >= ts.len() {
        Ok(Seq::empty())
    } else {
        match ts[i] {
            Tok::Sep => group_from(ts, i + 1),
            Tok::Bg { at } => Err(at),
            Tok::Word { text: _, at, quoted } => {
                if quoted {
                    Err(at)
                } else {
                    let k = leading_words(ts, i);
                    proof {
                        lemma_leading_words(ts, i);
                    }
                    let j = i + k;
                    if j >= ts.len() {
                        Ok(seq![cmd_at(ts, i, k, false)])
                    } else {
                        match ts[j] {
                            Tok::Sep => match group_from(ts, j + 1) {
                                Ok(cs) => Ok(seq![cmd_at(ts, i, k, false)] + cs),
                                Err(p) => Err(p),
                            },
                            Tok::Bg { at: _ } => {
                                if j + 1 >= ts.len() {
                                    Ok(seq![cmd_at(ts, i, k, true)])
                                } else {
                                    match ts[j + 1] {
                                        Tok::Sep => match group_from(ts, j + 2) {
                                            Ok(cs) => Ok(seq![cmd_at(ts, i, k, true)] + cs),
                                            Err(p) => Err(p),
                                        },
                                        Tok::Word { text: _, at: wat, quoted: _ } => Err(wat),
                                        Tok::Bg { at: bat } => Err(bat),
                                    }
                                }
                            },
                            Tok::Word { text: _, at: wat, quoted: _ } => Err(wat),
                        }
                    }
                }
            },
        }
    }
}

/// What parsing a whole line yields: the commands in order, or the position
/// of the character where parsing fails.
pub open spec fn parse_spec(s: Seq<char>) -> Result<Seq<CmdModel>, int> {
    match toks_from(s, 0) {
        Ok(ts) => group_from(ts, 0),
        Err(p) => Err(p),
    }
}

/// One token as the lexer hands it out.
pub enum Token {
    Word { text: String, at: usize, quoted: bool },
    Sep,
    Bg { at: usize },
}

impl View for Token {
    type V = Tok;

    open spec fn view(&self) -> Tok {
        match self {
            Token::Word { text, at, quoted } => Tok::Word {
                text: text@,
                at: *at as int,
                quoted: *quoted,
            },
            Token::Sep => Tok::Sep,
            Token::Bg { at } => Tok::Bg { at: *at as int },
        }
    }
}

/// The token sequence a vector of tokens stands for.
pub open spec fn toks_view(v: Seq<Token>) -> Seq<Tok> {
    v.map_values(|t: Token| t@)
}

proof fn lemma_toks_view_cons(t: Token, v: Seq<Token>)
    ensures
        toks_view(seq![t] + v) =~= seq![t@] + toks_view(v),
{
    assert forall|x: int| 0 <= x < toks_view(seq![t] + v).len() implies toks_view(seq![t] + v)[x]
        == (seq![t@] + toks_view(v))[x] by {
        if x > 0 {
            assert((seq![t] + v)[x] == v[x - 1]);
        }
    }
}

/// Finds the next quote character at or after `i`.
fn find_quote_exec(s: &str, i: usize) -> (r: Option<usize>)
    requires
        i <= s@.len(),
    ensures
        match r {
            Some(j) => find_quote(s@, i as int) == Some(j as int) && i <= j < s@.len(),
            None => find_quote(s@, i as int) is None,
        },
    decreases s@.len() - i,
{
    if i >= s.unicode_len() {
        None
    } else if s.get_char(i) == '\'' {
        Some(i)
    } else {
        find_quote_exec(s, i + 1)
    }
}

/// Tells whether `c` may stand in a bare token.
fn is_bare_char_exec(c: char) -> (r: bool)
    ensures
        r == is_bare_char(c),
{
    c != ' ' && c != '\t' && c != ';' && c != '\n' && c != '&' && c != '\''
}

/// Finds the end of the bare token starting at `i`.
fn bare_end_exec(s: &str, i: usize) -> (j: usize)
    requires
        i <= s@.len(),
    ensures
        j as int == bare_end(s@, i as int),
        i <= j <= s@.len(),
    decreases s@.len() - i,
{
    if i >= s.unicode_len() {
        i
    } else if !is_bare_char_exec(s.get_char(i)) {
        i
    } else {
        bare_end_exec(s, i + 1)
    }
}

/// Lexes `s` from position `i` on into tokens.
fn lex_from(s: &str, i: usize) -> (r: Result<Vec<Token>, usize>)
    requires
        i <= s@.len(),
    ensures
        match r {
            Ok(v) => toks_from(s@, i as int) == Ok::<Seq<Tok>, int>(toks_view(v@)),
            Err(p) => toks_from(s@, i as int) == Err::<Seq<Tok>, int>(p as int) && p < s@.len(),
        },
    decreases s@.len() - i,
{
    if i >= s.unicode_len() {
        let v: Vec<Token> = Vec::new();
        assert(toks_view(v@) =~= Seq::<Tok>::empty());
        return Ok(v);
    }
    let c = s.get_char(i);
    if c == ' ' || c == '\t' {
        lex_from(s, i + 1)
    } else if c == ';' || c == '\n' {
        match lex_from(s, i + 1) {
            Ok(mut v) => {
                let ghost vold = v@;
                v.insert(0, Token::Sep);
                proof {
                    assert(v@ =~= seq![Token::Sep] + vold);
                    lemma_toks_view_cons(Token::Sep, vold);
                }
                Ok(v)
            },
            Err(p) => Err(p),
        }
    } else if c == '&' {
        match lex_from(s, i + 1) {
            Ok(mut v) => {
                let t = Token::Bg { at: i };
                let ghost tg = t;
                let ghost vold = v@;
                v.insert(0, t);
                proof {
                    assert(v@ =~= seq![tg] + vold);
                    lemma_toks_view_cons(tg, vold);
                }
                Ok(v)
            },
            Err(p) => Err(p),
        }
    } else if c == '\'' {
        match find_quote_exec(s, i + 1) {
            None => {
                proof {
                    lemma_find_quote(s@, i as int + 1);
                }
                Err(i)
            },
            Some(j) => {
                proof {
                    lemma_find_quote(s@, i as int + 1);
                }
                let text = s.substring_char(i + 1, j).to_owned();
                match lex_from(s, j + 1) {
                    Ok(mut v) => {
                        let t = Token::Word { text, at: i, quoted: true };
                        let ghost tg = t;
                        let ghost vold = v@;
                        v.insert(0, t);
                        proof {
                            assert(v@ =~= seq![tg] + vold);
                            lemma_toks_view_cons(tg, vold);
                        }
                        Ok(v)
                    },
                    Err(p) => Err(p),
                }
            },
        }
    } else {
        proof {
            lemma_bare_end(s@, i as int);
        }
        let j = bare_end_exec(s, i);
        let text = s.substring_char(i, j).to_owned();
        match lex_from(s, j) {
            Ok(mut v) => {
                let t = Token::Word { text, at: i, quoted: false };
                let ghost tg = t;
                let ghost vold = v@;
                v.insert(0, t);
                proof {
                    assert(v@ =~= seq![tg] + vold);
                    lemma_toks_view_cons(tg, vold);
                }
                Ok(v)
            },
            Err(p) => Err(p),
        }
    }
}

/// One parsed command: a name, its arguments in order, whether it runs in
/// the background, and the builtin its name resolves to.
#[derive(Clone)]
pub struct Input {
    pub command: String,
    pub args: Vec<String>,
    pub bg: bool,
    pub builtin: Builtins,
}

impl View for Input {
    type V = CmdModel;

    open spec fn view(&self) -> CmdModel {
        CmdModel {
            name: self.command@,
            args: self.args.deep_view(),
            bg: self.bg,
            builtin: self.builtin,
        }
    }
}

/// The command sequence a vector of parsed commands stands for.
pub open spec fn cmds_view(v: Seq<Input>) -> Seq<CmdModel> {
    v.map_values(|inp: Input| inp@)
}

proof fn lemma_cmds_view_cons(c: Input, v: Seq<Input>)
    ensures
        cmds_view(seq![c] + v) =~= seq![c@] + cmds_view(v),
{
}

/// Counts the word tokens standing in a row from position `i` on.
fn leading_words_exec(toks: &Vec<Token>, i: usize) -> (k: usize)
    requires
        i <= toks@.len(),
    ensures
        k as int == leading_words(toks_view(toks@), i as int),
        i + k <= toks@.len(),
    decreases toks@.len() - i,
{
    if i >= toks.len() {
        0
    } else {
        match &toks[i] {
            Token::Word { .. } => {
                let r = leading_words_exec(toks, i + 1);
                1 + r
            },
            _ => 0,
        }
    }
}

/// Builds the command whose `k` word tokens start at position `i`.
fn command_at(toks: &Vec<Token>, i: usize, k: usize, bg: bool) -> (c: Input)
    requires
        1 <= k,
        i + k <= toks@.len(),
        forall|x: int| i <= x < i + k ==> toks_view(toks@)[x] is Word,
        toks_view(toks@)[i as int] matches Tok::Word { quoted, .. } && !quoted,
    ensures
        c@ == cmd_at(toks_view(toks@), i as int, k as int, bg),
{
    let ghost ts = toks_view(toks@);
    let n = toks.len();
    let command: String = match &toks[i] {
        Token::Word { text, .. } => text.clone(),
        _ => {
            proof {
                assert(false);
            }
            String::new()
        },
    };
    let mut args: Vec<String> = Vec::new();
    let mut m: usize = 1;
    while m < k
        invariant
            1 <= m <= k,
            i + k <= toks@.len(),
            n == toks@.len(),
            ts == toks_view(toks@),
            forall|x: int| i <= x < i + k ==> ts[x] is Word,
            args@.len() == m - 1,
            forall|x: int| 0 <= x < m - 1 ==> args@[x]@ == tok_text(ts[i + 1 + x]),
        decreases k - m,
    {
        let t = &toks[i + m];
        proof {
            assert(t@ == ts[i + m]);
            assert(ts[i + m] is Word);
        }
        match t {
            Token::Word { text, .. } => {
                args.push(text.clone());
            },
            _ => {
                proof {
                    assert(false);
                }
            },
        }
        m = m + 1;
    }
    let builtin = classify_builtin(command.as_str());
    let c = Input { command, args, bg, builtin };
    proof {
        assert(c@.args =~= cmd_at(ts, i as int, k as int, bg).args);
        assert(c@ == cmd_at(ts, i as int, k as int, bg));
    }
    c
}

/// Groups lexed tokens from position `i` on into commands.
fn group_exec(toks: &Vec<Token>, i: usize) -> (r: Result<Vec<Input>, usize>)
    requires
        i <= toks@.len(),
    ensures
        match r {
            Ok(v) => group_from(toks_view(toks@), i as int) == Ok::<Seq<CmdModel>, int>(
                cmds_view(v@),
            ),
            Err(p) => group_from(toks_view(toks@), i as int) == Err::<Seq<CmdModel>, int>(
                p as int,
            ),
        },
    decreases toks@.len() - i,
{
    let ghost ts = toks_view(toks@);
    if i >= toks.len() {
        let v: Vec<Input> = Vec::new();
        assert(cmds_view(v@) =~= Seq::<CmdModel>::empty());
        return Ok(v);
    }
    match &toks[i] {
        Token::Sep => group_exec(toks, i + 1),
        Token::Bg { at } => Err(*at),
        Token::Word { at, quoted, .. } => {
            if *quoted {
                return Err(*at);
            }
            proof {
                lemma_leading_words(ts, i as int);
            }
            let k = leading_words_exec(toks, i);
            let j = i + k;
            if j >= toks.len() {
                let cmd = command_at(toks, i, k, false);
                let mut v: Vec<Input> = Vec::new();
                v.push(cmd);
                proof {
                    assert(cmds_view(v@) =~= seq![cmd_at(ts, i as int, k as int, false)]);
                }
                return Ok(v);
            }
            match &toks[j] {
                Token::Sep => {
                    match group_exec(toks, j + 1) {
                        Ok(mut v) => {
                            let cmd = command_at(toks, i, k, false);
                            let ghost cg = cmd;
                            let ghost vold = v@;
                            v.insert(0, cmd);
                            proof {
                                assert(v@ =~= seq![cg] + vold);
                                lemma_cmds_view_cons(cg, vold);
                            }
                            Ok(v)
                        },
                        Err(p) => Err(p),
                    }
                },
                Token::Bg { .. } => {
                    if j + 1 >= toks.len() {
                        let cmd = command_at(toks, i, k, true);
                        let mut v: Vec<Input> = Vec::new();
                        v.push(cmd);
                        proof {
                            assert(cmds_view(v@) =~= seq![cmd_at(ts, i as int, k as int, true)]);
                        }
                        return Ok(v);
                    }
                    match &toks[j + 1] {
                        Token::Sep => {
                            match group_exec(toks, j + 2) {
                                Ok(mut v) => {
                                    let cmd = command_at(toks, i, k, true);
                                    let ghost cg = cmd;
                                    let ghost vold = v@;
                                    v.insert(0, cmd);
                                    proof {
                                        assert(v@ =~= seq![cg] + vold);
                                        lemma_cmds_view_cons(cg, vold);
                                    }
                                    Ok(v)
                                },
                                Err(p) => Err(p),
                            }
                        },
                        Token::Word { at: wat, .. } => Err(*wat),
                        Token::Bg { at: bat } => Err(*bat),
                    }
                },
                Token::Word { at: wat, .. } => Err(*wat),
            }
        },
    }
}

proof fn lemma_toks_from_err(s: Seq<char>, i: int)
    requires
        0 <= i <= s.len(),
    ensures
        toks_from(s, i) matches Err(p) ==> i <= p < s.len(),
    decreases s.len() - i,
{
    if i < s.len() {
        if is_ws_char(s[i]) || is_sep_char(s[i]) || s[i] == '&' {
            lemma_toks_from_err(s, i + 1);
        } else if s[i] == '\'' {
            lemma_find_quote(s, i + 1);
            match find_quote(s, i + 1) {
                None => {},
                Some(j) => {
                    lemma_toks_from_err(s, j + 1);
                },
            }
        } else {
            lemma_bare_end(s, i);
            lemma_toks_from_err(s, bare_end(s, i));
        }
    }
}

/// Every token of a well-lexed line starts at a position inside the line.
spec fn tok_pos_in(t: Tok, n: int) -> bool {
    match t {
        Tok::Word { at, .. } => 0 <= at < n,
        Tok::Sep => true,
        Tok::Bg { at } => 0 <= at < n,
    }
}

proof fn lemma_toks_from_positions(s: Seq<char>, i: int)
    requires
        0 <= i <= s.len(),
    ensures
        toks_from(s, i) matches Ok(ts) ==> forall|x: int|
            0 <= x < ts.len() ==> tok_pos_in(ts[x], s.len() as int),
    decreases s.len() - i,
{
    if i < s.len() {
        if is_ws_char(s[i]) {
            lemma_toks_from_positions(s, i + 1);
        } else if is_sep_char(s[i]) || s[i] == '&' {
            lemma_toks_from_positions(s, i + 1);
        } else if s[i] == '\'' {
            lemma_find_quote(s, i + 1);
            match find_quote(s, i + 1) {
                None => {},
                Some(j) => {
                    lemma_toks_from_positions(s, j + 1);
                },
            }
        } else {
            lemma_bare_end(s, i);
            lemma_toks_from_positions(s, bare_end(s, i));
        }
    }
}

proof fn lemma_group_from_err(ts: Seq<Tok>, i: int, n: int)
    requires
        0 <= i <= ts.len(),
        forall|x: int| 0 <= x < ts.len() ==> tok_pos_in(ts[x], n),
    ensures
        group_from(ts, i) matches Err(p) ==> 0 <= p < n,
    decreases ts.len() - i,
{
    if i < ts.len() {
        match ts[i] {
            Tok::Sep => {
                lemma_group_from_err(ts, i + 1, n);
            },
            Tok::Bg { .. } => {},
            Tok::Word { .. } => {
                lemma_leading_words(ts, i);
                let k = leading_words(ts, i);
                let j = i + k;
                if j < ts.len() {
                    lemma_group_from_err(ts, j + 1, n);
                    if j + 1 < ts.len() {
                        lemma_group_from_err(ts, j + 2, n);
                    }
                }
            },
        }
    }
}

/// On a parse failure the reported position points at a character of the
/// line.
pub proof fn lemma_parse_spec_err(s: Seq<char>)
    ensures
        parse_spec(s) matches Err(p) ==> 0 <= p < s.len(),
{
    lemma_toks_from_err(s, 0);
    lemma_toks_from_positions(s, 0);
    match toks_from(s, 0) {
        Ok(ts) => {
            lemma_group_from_err(ts, 0, s.len() as int);
        },
        Err(_) => {},
    }
}

/// Parses a whole line into its commands, or fails with the position of the
/// offending character.
pub fn parse_line(raw_input: &str) -> (r: Result<Vec<Input>, usize>)
    ensures
        match r {
            Ok(v) => parse_spec(raw_input@) == Ok::<Seq<CmdModel>, int>(cmds_view(v@)),
            Err(p) => parse_spec(raw_input@) == Err::<Seq<CmdModel>, int>(p as int) && p
                < raw_input@.len(),
        },
{
    match lex_from(raw_input, 0) {
        Ok(toks) => {
            proof {
                lemma_parse_spec_err(raw_input@);
            }
            match group_exec(&toks, 0) {
                Ok(v) => Ok(v),
                Err(p) => Err(p),
            }
        },
        Err(p) => Err(p),
    }
}

/// The line reported when parsing fails at position `p` of `s`.
pub open spec fn parse_fail_msg(s: Seq<char>, p: int) -> Seq<char> {
    "command parsing failed - unexpected symbol \""@ + seq![s[p]] + "\""@
}

/// Builds the report for a parse failure at position `pos`.
pub fn parse_failure_line(raw_input: &str, pos: usize) -> (r: String)
    requires
        pos < raw_input@.len(),
    ensures
        r@ == parse_fail_msg(raw_input@, pos as int),
{
    let mut r = String::from_str("command parsing failed - unexpected symbol \"");
    let c = raw_input.get_char(pos);
    push_char(&mut r, c);
    r.append("\"");
    proof {
        assert(r@ =~= parse_fail_msg(raw_input@, pos as int));
    }
    r
}

/// A word that the lexer reads back as one bare token.
pub open spec fn is_bare_word(w: Seq<char>) -> bool {
    w.len() > 0 && forall|x: int| 0 <= x < w.len() ==> is_bare_char(w[x])
}

/// A command whose serialized form parses back to it exactly: its name and
/// arguments are bare words, and its builtin matches its name — as it does
/// for every command the parser hands out.
pub open spec fn renderable_cmd(c: CmdModel) -> bool {
    &&& is_bare_word(c.name)
    &&& forall|x: int| 0 <= x < c.args.len() ==> is_bare_word(#[trigger] c.args[x])
    &&& c.builtin == classify_name(c.name)
}

pub open spec fn renderable_cmds(cs: Seq<CmdModel>) -> bool {
    forall|k: int| 0 <= k < cs.len() ==> renderable_cmd(#[trigger] cs[k])
}

/// The arguments from position `a` on, serialized: each preceded by one
/// space.
pub open spec fn render_args(args: Seq<Seq<char>>, a: int) -> Seq<char>
    decreases args.len() - a,
    when 0 <= a <= args.len()
{
    if a >= args.len() {
        Seq::empty()
    } else {
        seq![' '] + args[a] + render_args(args, a + 1)
    }
}

/// One command serialized: its name and arguments joined by single spaces,
/// with `&` appended when it runs in the background.
pub open spec fn render_cmd(c: CmdModel) -> Seq<char> {
    c.name + render_args(c.args, 0) + (if c.bg {
        seq!['&']
    } else {
        Seq::empty()
    })
}

/// The commands from position `k` on, serialized and joined by `; `.
pub open spec fn render_cmds(cs: Seq<CmdModel>, k: int) -> Seq<char>
    decreases cs.len() - k,
    when 0 <= k <= cs.len()
{
    if k >= cs.len() {
        Seq::empty()
    } else if k == cs.len() - 1 {
        render_cmd(cs[k])
    } else {
        render_cmd(cs[k]) + seq![';', ' '] + render_cmds(cs, k + 1)
    }
}

/// A command list serialized back to one line.
pub open spec fn render_script(cs: Seq<CmdModel>) -> Seq<char> {
    render_cmds(cs, 0)
}

proof fn lemma_bare_end_eq(s: Seq<char>, i: int, j: int)
    requires
        0 <= i <= j <= s.len(),
        forall|x: int| i <= x < j ==> is_bare_char(s[x]),
        j == s.len() || !is_bare_char(s[j]),
    ensures
        bare_end(s, i) == j,
    decreases j - i,
{
    if i < j {
        lemma_bare_end_eq(s, i + 1, j);
    }
}

proof fn lemma_toks_word(s: Seq<char>, i: int, w: Seq<char>, ts: Seq<Tok>)
    requires
        0 <= i,
        i + w.len() <= s.len(),
        is_bare_word(w),
        s.subrange(i, i + w.len()) == w,
        i + w.len() == s.len() || !is_bare_char(s[i + w.len()]),
        toks_from(s, i + w.len()) == Ok::<Seq<Tok>, int>(ts),
    ensures
        toks_from(s, i) == Ok::<Seq<Tok>, int>(
            seq![Tok::Word { text: w, at: i, quoted: false }] + ts,
        ),
{
    assert forall|x: int| i <= x < i + w.len() implies is_bare_char(s[x]) by {
        assert(s[x] == w[x - i]);
    }
    assert(s[i] == w[0]);
    lemma_bare_end_eq(s, i, i + w.len());
}

/// The shape one run of word tokens takes.
spec fn is_plain_word(t: Tok, w: Seq<char>) -> bool {
    t matches Tok::Word { text, quoted, at: _ } && text == w && !quoted
}

spec fn words_match(ws: Seq<Tok>, args: Seq<Seq<char>>, a: int) -> bool {
    &&& ws.len() == args.len() - a
    &&& forall|x: int| 0 <= x < ws.len() ==> is_plain_word(#[trigger] ws[x], args[a + x])
}

proof fn lemma_toks_args(s: Seq<char>, i: int, args: Seq<Seq<char>>, a: int, ts: Seq<Tok>)
    requires
        0 <= a <= args.len(),
        forall|x: int| a <= x < args.len() ==> is_bare_word(#[trigger] args[x]),
        0 <= i,
        i + render_args(args, a).len() <= s.len(),
        s.subrange(i, i + render_args(args, a).len()) == render_args(args, a),
        i + render_args(args, a).len() == s.len() || !is_bare_char(
            s[i + render_args(args, a).len()],
        ),
        toks_from(s, i + render_args(args, a).len()) == Ok::<Seq<Tok>, int>(ts),
    ensures
        exists|ws: Seq<Tok>|
            #![auto]
            toks_from(s, i) == Ok::<Seq<Tok>, int>(ws + ts) && words_match(ws, args, a),
    decreases args.len() - a,
{
    let ra = render_args(args, a);
    if a >= args.len() {
        let ws = Seq::<Tok>::empty();
        assert(ws + ts =~= ts);
        assert(toks_from(s, i) == Ok::<Seq<Tok>, int>(ws + ts) && words_match(ws, args, a));
    } else {
        let w = args[a];
        let rest = render_args(args, a + 1);
        assert(ra == seq![' '] + w + rest);
        assert(ra.len() == 1 + w.len() + rest.len());
        let p1 = i + 1;
        let p2 = p1 + w.len();
        let p3 = i + ra.len();
        assert(s[i] == ra[0]);
        assert(ra[0] == ' ');
        assert(s.subrange(p1, p2) =~= w) by {
            assert forall|x: int| 0 <= x < w.len() implies s.subrange(p1, p2)[x] == w[x] by {
                assert(s[p1 + x] == ra[1 + x]);
                assert(ra[1 + x] == w[x]);
            }
        }
        assert(s.subrange(p2, p3) =~= rest) by {
            assert forall|x: int| 0 <= x < rest.len() implies s.subrange(p2, p3)[x] == rest[x] by {
                assert(s[p2 + x] == ra[1 + w.len() + x]);
                assert(ra[1 + w.len() + x] == rest[x]);
            }
        }
        if a + 1 < args.len() {
            assert(rest == seq![' '] + args[a + 1] + render_args(args, a + 2));
            assert(rest[0] == ' ');
            assert(s[p2] == ' ');
            assert(!is_bare_char(s[p2]));
        } else {
            assert(rest.len() == 0);
            assert(p2 == p3);
        }
        lemma_toks_args(s, p2, args, a + 1, ts);
        let ws2 = choose|ws2: Seq<Tok>|
            #![auto]
            toks_from(s, p2) == Ok::<Seq<Tok>, int>(ws2 + ts) && words_match(ws2, args, a + 1);
        lemma_toks_word(s, p1, w, ws2 + ts);
        let wt = Tok::Word { text: w, at: p1, quoted: false };
        assert(is_ws_char(s[i]));
        assert(toks_from(s, i) == toks_from(s, p1));
        let ws = seq![wt] + ws2;
        assert(ws + ts =~= seq![wt] + (ws2 + ts));
        assert(words_match(ws, args, a)) by {
            assert forall|x: int| 0 <= x < ws.len() implies is_plain_word(ws[x], args[a + x]) by {
                if x > 0 {
                    assert(ws[x] == ws2[x - 1]);
                    assert(is_plain_word(ws2[x - 1], args[a + 1 + (x - 1)]));
                }
            }
        }
        assert(toks_from(s, i) == Ok::<Seq<Tok>, int>(ws + ts) && words_match(ws, args, a));
    }
}

proof fn lemma_toks_cmd(s: Seq<char>, i: int, c: CmdModel, ts: Seq<Tok>)
    requires
        renderable_cmd(c),
        0 <= i,
        i + render_cmd(c).len() <= s.len(),
        s.subrange(i, i + render_cmd(c).len()) == render_cmd(c),
        i + render_cmd(c).len() == s.len() || is_sep_char(s[i + render_cmd(c).len()]),
        toks_from(s, i + render_cmd(c).len()) == Ok::<Seq<Tok>, int>(ts),
    ensures
        exists|ws: Seq<Tok>, bgts: Seq<Tok>|
            #![auto]
            toks_from(s, i) == Ok::<Seq<Tok>, int>(ws + bgts + ts) && words_match(
                ws,
                seq![c.name] + c.args,
                0,
            ) && (if c.bg {
                bgts.len() == 1 && bgts[0] is Bg
            } else {
                bgts == Seq::<Tok>::empty()
            }),
{
    let rc = render_cmd(c);
    let ra = render_args(c.args, 0);
    let bgpart: Seq<char> = if c.bg {
        seq!['&']
    } else {
        Seq::empty()
    };
    assert(rc == c.name + ra + bgpart);
    let p1 = i + c.name.len();
    let p2 = p1 + ra.len();
    let p3 = i + rc.len();
    assert(p3 == p2 + bgpart.len());
    assert(s.subrange(i, p1) =~= c.name) by {
        assert forall|x: int| 0 <= x < c.name.len() implies s.subrange(i, p1)[x] == c.name[x] by {
            assert(s[i + x] == rc[x]);
            assert(rc[x] == c.name[x]);
        }
    }
    assert(s.subrange(p1, p2) =~= ra) by {
        assert forall|x: int| 0 <= x < ra.len() implies s.subrange(p1, p2)[x] == ra[x] by {
            assert(s[p1 + x] == rc[c.name.len() + x]);
            assert(rc[c.name.len() + x] == ra[x]);
        }
    }
    // what stands right after the arguments: the `&`, or the outer boundary
    let tsb: Seq<Tok> = if c.bg {
        seq![Tok::Bg { at: p2 }] + ts
    } else {
        ts
    };
    if c.bg {
        assert(s[p2] == rc[c.name.len() + ra.len() as int]);
        assert(rc[c.name.len() + ra.len() as int] == '&');
        assert(p2 + 1 == p3);
        assert(toks_from(s, p2) == Ok::<Seq<Tok>, int>(tsb));
        assert(!is_bare_char(s[p2]));
    } else {
        assert(p2 == p3);
        assert(toks_from(s, p2) == Ok::<Seq<Tok>, int>(tsb));
        if p2 < s.len() {
            assert(is_sep_char(s[p2]));
            assert(!is_bare_char(s[p2]));
        }
    }
    lemma_toks_args(s, p1, c.args, 0, tsb);
    let ws2 = choose|ws2: Seq<Tok>|
        #![auto]
        toks_from(s, p1) == Ok::<Seq<Tok>, int>(ws2 + tsb) && words_match(ws2, c.args, 0);
    // the boundary right after the name
    if c.args.len() > 0 {
        assert(ra == seq![' '] + c.args[0] + render_args(c.args, 1));
        assert(s[p1] == ra[0]);
        assert(!is_bare_char(s[p1]));
    } else {
        assert(ra.len() == 0);
        assert(p1 == p2);
    }
    lemma_toks_word(s, i, c.name, ws2 + tsb);
    let nt = Tok::Word { text: c.name, at: i, quoted: false };
    let ws = seq![nt] + ws2;
    let bgts: Seq<Tok> = if c.bg {
        seq![Tok::Bg { at: p2 }]
    } else {
        Seq::empty()
    };
    assert(ws + bgts + ts =~= seq![nt] + (ws2 + tsb)) by {
        assert(bgts + ts =~= tsb);
        assert(ws + bgts + ts =~= ws + tsb);
        assert(ws + tsb =~= seq![nt] + (ws2 + tsb));
    }
    let allw = seq![c.name] + c.args;
    assert(words_match(ws, allw, 0)) by {
        assert forall|x: int| 0 <= x < ws.len() implies is_plain_word(ws[x], allw[x]) by {
            if x == 0 {
                assert(ws[0] == nt);
                assert(allw[0] == c.name);
            } else {
                assert(ws[x] == ws2[x - 1]);
                assert(allw[x] == c.args[x - 1]);
                assert(is_plain_word(ws2[x - 1], c.args[x - 1]));
            }
        }
    }
    assert(toks_from(s, i) == Ok::<Seq<Tok>, int>(ws + bgts + ts) && words_match(ws, allw, 0) && (
    if c.bg {
        bgts.len() == 1 && bgts[0] is Bg
    } else {
        bgts == Seq::<Tok>::empty()
    }));
}

proof fn lemma_leading_words_pair(ts: Seq<Tok>, i: int, ts2: Seq<Tok>, i2: int)
    requires
        0 <= i <= ts.len(),
        0 <= i2 <= ts2.len(),
        ts.subrange(i, ts.len() as int) == ts2.subrange(i2, ts2.len() as int),
    ensures
        leading_words(ts, i) == leading_words(ts2, i2),
    decreases ts.len() - i,
{
    let sub1 = ts.subrange(i, ts.len() as int);
    let sub2 = ts2.subrange(i2, ts2.len() as int);
    assert(sub1 == sub2);
    assert(sub1.len() == ts.len() - i);
    assert(sub2.len() == ts2.len() - i2);
    assert(ts.len() - i == ts2.len() - i2);
    if i < ts.len() {
        assert(ts[i] == ts.subrange(i, ts.len() as int)[0]);
        assert(ts2[i2] == ts2.subrange(i2, ts2.len() as int)[0]);
        if ts[i] is Word {
            assert(ts.subrange(i + 1, ts.len() as int) =~= ts2.subrange(i2 + 1, ts2.len() as int))
                by {
                assert forall|x: int| 0 <= x < ts.len() - i - 1 implies #[trigger] ts.subrange(
                    i + 1,
                    ts.len() as int,
                )[x] == ts2.subrange(i2 + 1, ts2.len() as int)[x] by {
                    assert(ts[i + 1 + x] == ts.subrange(i, ts.len() as int)[1 + x]);
                    assert(ts2[i2 + 1 + x] == ts2.subrange(i2, ts2.len() as int)[1 + x]);
                }
            }
            lemma_leading_words_pair(ts, i + 1, ts2, i2 + 1);
        }
    }
}

proof fn lemma_group_pair(ts: Seq<Tok>, i: int, ts2: Seq<Tok>, i2: int)
    requires
        0 <= i <= ts.len(),
        0 <= i2 <= ts2.len(),
        ts.subrange(i, ts.len() as int) == ts2.subrange(i2, ts2.len() as int),
    ensures
        group_from(ts, i) == group_from(ts2, i2),
    decreases ts.len() - i,
{
    let n = ts.len() as int;
    let n2 = ts2.len() as int;
    assert(ts.subrange(i, n).len() == ts2.subrange(i2, n2).len());
    assert(n - i == n2 - i2);
    assert forall|d: int| 0 <= d < n - i implies #[trigger] ts[i + d] == ts2[i2 + d] by {
        assert(ts[i + d] == ts.subrange(i, n)[d]);
        assert(ts2[i2 + d] == ts2.subrange(i2, n2)[d]);
    }
    assert forall|m: int| i <= m <= n implies #[trigger] ts.subrange(m, n) =~= ts2.subrange(
        m - i + i2,
        n2,
    ) by {
        assert forall|x: int| 0 <= x < n - m implies #[trigger] ts.subrange(m, n)[x]
            == ts2.subrange(m - i + i2, n2)[x] by {
            let d = m + x - i;
            assert(ts[i + d] == ts2[i2 + d]);
            assert(m + x == i + d);
        }
    }
    if i < n {
        match ts[i] {
            Tok::Sep => {
                lemma_group_pair(ts, i + 1, ts2, i2 + 1);
            },
            Tok::Bg { .. } => {},
            Tok::Word { .. } => {
                lemma_leading_words_pair(ts, i, ts2, i2);
                lemma_leading_words(ts, i);
                lemma_leading_words(ts2, i2);
                let k = leading_words(ts, i);
                let j = i + k;
                let j2 = i2 + k;
                assert forall|m: int| 0 <= m < k - 1 implies #[trigger] tok_text(ts[i + 1 + m])
                    == tok_text(ts2[i2 + 1 + m]) by {
                    let d = 1 + m;
                    assert(ts[i + d] == ts2[i2 + d]);
                    assert(i + 1 + m == i + d);
                    assert(i2 + 1 + m == i2 + d);
                }
                assert(ts[i + 0] == ts2[i2 + 0]);
                assert(ts[i] == ts2[i2]);
                assert(cmd_at(ts, i, k, false).args =~= cmd_at(ts2, i2, k, false).args);
                assert(cmd_at(ts, i, k, false) =~~= cmd_at(ts2, i2, k, false));
                assert(cmd_at(ts, i, k, true).args =~= cmd_at(ts2, i2, k, true).args);
                assert(cmd_at(ts, i, k, true) =~~= cmd_at(ts2, i2, k, true));
                if j < n {
                    assert(ts[i + k] == ts2[i2 + k]);
                    assert(j == i + k && j2 == i2 + k);
                    match ts[j] {
                        Tok::Sep => {
                            lemma_group_pair(ts, j + 1, ts2, j2 + 1);
                        },
                        Tok::Bg { .. } => {
                            if j + 1 < n {
                                let d = k + 1;
                                assert(ts[i + d] == ts2[i2 + d]);
                                assert(j + 1 == i + d && j2 + 1 == i2 + d);
                                match ts[j + 1] {
                                    Tok::Sep => {
                                        lemma_group_pair(ts, j + 2, ts2, j2 + 2);
                                    },
                                    _ => {},
                                }
                            }
                        },
                        _ => {},
                    }
                }
            },
        }
    }
}

proof fn lemma_leading_words_eq(ts: Seq<Tok>, i: int, m: int)
    requires
        0 <= i,
        0 <= m,
        i + m <= ts.len(),
        forall|x: int| i <= x < i + m ==> ts[x] is Word,
        i + m == ts.len() || !(ts[i + m] is Word),
    ensures
        leading_words(ts, i) == m,
    decreases m,
{
    if m > 0 {
        lemma_leading_words_eq(ts, i + 1, m - 1);
    }
}

proof fn lemma_group_cmd(
    ts: Seq<Tok>,
    ws: Seq<Tok>,
    bgts: Seq<Tok>,
    rest: Seq<Tok>,
    c: CmdModel,
    cs_rest: Seq<CmdModel>,
)
    requires
        renderable_cmd(c),
        ts == ws + bgts + rest,
        words_match(ws, seq![c.name] + c.args, 0),
        if c.bg {
            bgts.len() == 1 && bgts[0] is Bg
        } else {
            bgts == Seq::<Tok>::empty()
        },
        rest.len() == 0 ==> cs_rest == Seq::<CmdModel>::empty(),
        rest.len() > 0 ==> rest[0] is Sep && group_from(rest.subrange(1, rest.len() as int), 0)
            == Ok::<Seq<CmdModel>, int>(cs_rest),
    ensures
        group_from(ts, 0) == Ok::<Seq<CmdModel>, int>(seq![c] + cs_rest),
{
    let nw = ws.len() as int;
    let n = ts.len() as int;
    assert(nw == 1 + c.args.len());
    assert(is_plain_word(ws[0], c.name));
    assert(ts[0] == ws[0]);
    assert forall|x: int| 0 <= x < nw implies ts[x] is Word by {
        assert(ts[x] == ws[x]);
        assert(is_plain_word(ws[x], (seq![c.name] + c.args)[x]));
    }
    let j = nw;
    if c.bg {
        assert(ts[j] == bgts[0]);
        assert(!(ts[j] is Word));
    } else if rest.len() > 0 {
        assert(ts[j] == rest[0]);
        assert(!(ts[j] is Word));
    } else {
        assert(n == nw);
    }
    lemma_leading_words_eq(ts, 0, nw);
    let bgflag = c.bg;
    assert(cmd_at(ts, 0, nw, bgflag) == c) by {
        assert(tok_text(ts[0]) == c.name);
        assert(Seq::new((nw - 1) as nat, |m: int| tok_text(ts[1 + m])) =~= c.args) by {
            assert forall|m: int| 0 <= m < nw - 1 implies tok_text(ts[1 + m]) == c.args[m] by {
                assert(ts[1 + m] == ws[1 + m]);
                assert(is_plain_word(ws[1 + m], (seq![c.name] + c.args)[1 + m]));
                assert((seq![c.name] + c.args)[1 + m] == c.args[m]);
            }
        }
        assert(cmd_at(ts, 0, nw, bgflag) =~= c);
    }
    if !c.bg {
        if rest.len() == 0 {
            assert(j >= n);
            assert(group_from(ts, 0) == Ok::<Seq<CmdModel>, int>(seq![cmd_at(ts, 0, nw, false)]));
            assert(seq![cmd_at(ts, 0, nw, false)] =~= seq![c] + cs_rest);
        } else {
            assert(ts[j] is Sep);
            let rest2 = rest.subrange(1, rest.len() as int);
            assert(ts.subrange(j + 1, n) =~= rest2) by {
                assert forall|x: int| 0 <= x < n - j - 1 implies ts.subrange(j + 1, n)[x] == rest2[x]
                    by {
                    assert(ts[j + 1 + x] == rest[1 + x]);
                }
            }
            assert(rest2.subrange(0, rest2.len() as int) =~= rest2);
            lemma_group_pair(ts, j + 1, rest2, 0);
            assert(group_from(ts, 0) == Ok::<Seq<CmdModel>, int>(
                seq![cmd_at(ts, 0, nw, false)] + cs_rest,
            ));
            assert(seq![cmd_at(ts, 0, nw, false)] + cs_rest =~= seq![c] + cs_rest);
        }
    } else {
        if rest.len() == 0 {
            assert(j + 1 >= n);
            assert(group_from(ts, 0) == Ok::<Seq<CmdModel>, int>(seq![cmd_at(ts, 0, nw, true)]));
            assert(seq![cmd_at(ts, 0, nw, true)] =~= seq![c] + cs_rest);
        } else {
            assert(ts[j + 1] == rest[0]);
            assert(ts[j + 1] is Sep);
            let rest2 = rest.subrange(1, rest.len() as int);
            assert(ts.subrange(j + 2, n) =~= rest2) by {
                assert forall|x: int| 0 <= x < n - j - 2 implies ts.subrange(j + 2, n)[x] == rest2[x]
                    by {
                    assert(ts[j + 2 + x] == rest[1 + x]);
                }
            }
            assert(rest2.subrange(0, rest2.len() as int) =~= rest2);
            lemma_group_pair(ts, j + 2, rest2, 0);
            assert(group_from(ts, 0) == Ok::<Seq<CmdModel>, int>(
                seq![cmd_at(ts, 0, nw, true)] + cs_rest,
            ));
            assert(seq![cmd_at(ts, 0, nw, true)] + cs_rest =~= seq![c] + cs_rest);
        }
    }
}

proof fn lemma_parse_render(s: Seq<char>, cs: Seq<CmdModel>, k: int, i: int)
    requires
        renderable_cmds(cs),
        0 <= k <= cs.len(),
        0 <= i <= s.len(),
        s.subrange(i, s.len() as int) == render_cmds(cs, k),
    ensures
        exists|ts: Seq<Tok>|
            #![auto]
            toks_from(s, i) == Ok::<Seq<Tok>, int>(ts) && group_from(ts, 0) == Ok::<
                Seq<CmdModel>,
                int,
            >(cs.subrange(k, cs.len() as int)),
    decreases cs.len() - k,
{
    let n = s.len() as int;
    if k >= cs.len() {
        assert(s.subrange(i, n).len() == 0);
        assert(i == n);
        let ts = Seq::<Tok>::empty();
        assert(cs.subrange(k, cs.len() as int) =~= Seq::<CmdModel>::empty());
        assert(toks_from(s, i) == Ok::<Seq<Tok>, int>(ts) && group_from(ts, 0) == Ok::<
            Seq<CmdModel>,
            int,
        >(cs.subrange(k, cs.len() as int)));
    } else {
        let c = cs[k];
        assert(renderable_cmd(c));
        let rc = render_cmd(c);
        let suffix = render_cmds(cs, k);
        assert(s.subrange(i, n).len() == suffix.len());
        assert forall|x: int| 0 <= x < suffix.len() implies s[i + x] == suffix[x] by {
            assert(s.subrange(i, n)[x] == suffix[x]);
        }
        if k == cs.len() - 1 {
            assert(suffix == rc);
            let p3 = i + rc.len();
            assert(p3 == n);
            assert(toks_from(s, p3) == Ok::<Seq<Tok>, int>(Seq::<Tok>::empty()));
            lemma_toks_cmd(s, i, c, Seq::<Tok>::empty());
            let (ws, bgts) = choose|ws: Seq<Tok>, bgts: Seq<Tok>|
                #![auto]
                toks_from(s, i) == Ok::<Seq<Tok>, int>(ws + bgts + Seq::<Tok>::empty())
                    && words_match(ws, seq![c.name] + c.args, 0) && (if c.bg {
                    bgts.len() == 1 && bgts[0] is Bg
                } else {
                    bgts == Seq::<Tok>::empty()
                });
            let ts = ws + bgts + Seq::<Tok>::empty();
            lemma_group_cmd(ts, ws, bgts, Seq::<Tok>::empty(), c, Seq::<CmdModel>::empty());
            assert(seq![c] + Seq::<CmdModel>::empty() =~= cs.subrange(k, cs.len() as int));
            assert(toks_from(s, i) == Ok::<Seq<Tok>, int>(ts) && group_from(ts, 0) == Ok::<
                Seq<CmdModel>,
                int,
            >(cs.subrange(k, cs.len() as int)));
        } else {
            let rest_r = render_cmds(cs, k + 1);
            assert(suffix == rc + seq![';', ' '] + rest_r);
            let p3 = i + rc.len();
            let i2 = p3 + 2;
            assert(n - i == rc.len() + 2 + rest_r.len());
            assert(s.subrange(i, p3) =~= rc) by {
                assert forall|x: int| 0 <= x < rc.len() implies #[trigger] s.subrange(i, p3)[x]
                    == rc[x] by {
                    assert(s[i + x] == suffix[x]);
                    assert(suffix[x] == rc[x]);
                }
            }
            assert(s[i + rc.len() as int] == suffix[rc.len() as int]);
            assert(suffix[rc.len() as int] == ';');
            assert(s[p3] == ';');
            assert(s[i + (rc.len() + 1)] == suffix[rc.len() + 1 as int]);
            assert(suffix[rc.len() + 1 as int] == ' ');
            assert(s[p3 + 1] == ' ');
            assert(s.subrange(i2, n) =~= rest_r) by {
                assert forall|x: int| 0 <= x < rest_r.len() implies #[trigger] s.subrange(i2, n)[x]
                    == rest_r[x] by {
                    assert(s[i + (rc.len() + 2 + x)] == suffix[rc.len() + 2 + x as int]);
                    assert(suffix[rc.len() + 2 + x as int] == rest_r[x]);
                    assert(i2 + x == i + (rc.len() + 2 + x));
                }
            }
            lemma_parse_render(s, cs, k + 1, i2);
            let ts2 = choose|ts2: Seq<Tok>|
                #![auto]
                toks_from(s, i2) == Ok::<Seq<Tok>, int>(ts2) && group_from(ts2, 0) == Ok::<
                    Seq<CmdModel>,
                    int,
                >(cs.subrange(k + 1, cs.len() as int));
            assert(is_ws_char(s[p3 + 1]));
            assert(toks_from(s, p3 + 1) == Ok::<Seq<Tok>, int>(ts2));
            assert(is_sep_char(s[p3]));
            assert(toks_from(s, p3) == Ok::<Seq<Tok>, int>(seq![Tok::Sep] + ts2));
            lemma_toks_cmd(s, i, c, seq![Tok::Sep] + ts2);
            let (ws, bgts) = choose|ws: Seq<Tok>, bgts: Seq<Tok>|
                #![auto]
                toks_from(s, i) == Ok::<Seq<Tok>, int>(ws + bgts + (seq![Tok::Sep] + ts2))
                    && words_match(ws, seq![c.name] + c.args, 0) && (if c.bg {
                    bgts.len() == 1 && bgts[0] is Bg
                } else {
                    bgts == Seq::<Tok>::empty()
                });
            let rest = seq![Tok::Sep] + ts2;
            let ts = ws + bgts + rest;
            assert(rest[0] is Sep);
            assert(rest.subrange(1, rest.len() as int) =~= ts2);
            lemma_group_cmd(ts, ws, bgts, rest, c, cs.subrange(k + 1, cs.len() as int));
            assert(seq![c] + cs.subrange(k + 1, cs.len() as int) =~= cs.subrange(
                k,
                cs.len() as int,
            ));
            assert(toks_from(s, i) == Ok::<Seq<Tok>, int>(ts) && group_from(ts, 0) == Ok::<
                Seq<CmdModel>,
                int,
            >(cs.subrange(k, cs.len() as int)));
        }
    }
}

/// Parsing is idempotent on already-normalized input: serializing a command
/// list back to a line — names and arguments joined by single spaces, `&`
/// after a background command, commands joined by `; ` — and parsing that
/// line yields the same list, with the same names, arguments, background
/// flags and builtins.  This holds for every list whose names and arguments
/// are bare words and whose builtins match their names, as they are in
/// every list the parser hands out.
pub proof fn lemma_parse_render_round_trip(cs: Seq<CmdModel>)
    requires
        renderable_cmds(cs),
    ensures
        parse_spec(render_script(cs)) == Ok::<Seq<CmdModel>, int>(cs),
{
    let s = render_script(cs);
    assert(s.subrange(0, s.len() as int) =~= s);
    lemma_parse_render(s, cs, 0, 0);
    let ts = choose|ts: Seq<Tok>|
        #![auto]
        toks_from(s, 0) == Ok::<Seq<Tok>, int>(ts) && group_from(ts, 0) == Ok::<
            Seq<CmdModel>,
            int,
        >(cs.subrange(0, cs.len() as int));
    assert(cs.subrange(0, cs.len() as int) =~= cs);
}

/// Parses a whole line into its commands; a line that fails to parse yields
/// no command at all, never a partial list.
pub fn parse_input(raw_input: &str) -> (inputs: Vec<Input>)
    ensures
        match parse_spec(raw_input@) {
            Ok(cs) => cmds_view(inputs@) == cs,
            Err(_) => inputs@.len() == 0,
        },
{
    match parse_line(raw_input) {
        Ok(v) => v,
        Err(_) => Vec::new(),
    }
}

} // verus!
