//! The template engine: tokenizer, tree builder and renderer.
//!
//! A template is literal text interspersed with code blocks. A value
//! block `{{ name |> upper }}` substitutes a context value, optionally
//! piped through filters; a logic block `{% if x %}` is recognized
//! syntactically but its evaluation is an open extension point.

use vstd::prelude::*;
use vstd::string::{StrSliceExecFns, StringExecFns};

use crate::context::{Context, ContextValue};
use crate::errors::RenderError;
use crate::filters::{spec_apply_filter, Filter};
use crate::util::{
    find_char_from, find_first, lemma_find_first, lemma_find_first_unique, spec_segment, str_eq,
    Chunk, ChunkModel, StringUtils,
};

verus! {

// ---------------------------------------------------------------------------
// Whitespace and trimming
// ---------------------------------------------------------------------------

/// The Unicode white-space characters, the set that `str::trim` strips.
pub open spec fn is_white_space(c: char) -> bool {
    (c as u32) == 0x20 || (0x9 <= c as u32 && c as u32 <= 0xD) || (c as u32) == 0x85 || (c
        as u32) == 0xA0 || (c as u32) == 0x1680 || (0x2000 <= c as u32 && c as u32 <= 0x200A) || (c
        as u32) == 0x2028 || (c as u32) == 0x2029 || (c as u32) == 0x202F || (c as u32) == 0x205F
        || (c as u32) == 0x3000
}

/// Executable form of [`is_white_space`].
pub fn is_white_space_char(c: char) -> (r: bool)
    ensures
        r == is_white_space(c),
{
    let u = c as u32;
    u == 0x20 || (0x9 <= u && u <= 0xD) || u == 0x85 || u == 0xA0 || u == 0x1680 || (0x2000 <= u
        && u <= 0x200A) || u == 0x2028 || u == 0x2029 || u == 0x202F || u == 0x205F || u == 0x3000
}

/// `s` without its leading white space.
pub open spec fn trim_start(s: Seq<char>) -> Seq<char>
    decreases s.len(),
{
    if s.len() > 0 && is_white_space(s[0]) {
        trim_start(s.drop_first())
    } else {
        s
    }
}

/// `s` without its trailing white space.
pub open spec fn trim_end(s: Seq<char>) -> Seq<char>
    decreases s.len(),
{
    if s.len() > 0 && is_white_space(s.last()) {
        trim_end(s.drop_last())
    } else {
        s
    }
}

/// `s` without leading and trailing white space, as `str::trim` yields it.
pub open spec fn spec_trim(s: Seq<char>) -> Seq<char> {
    trim_end(trim_start(s))
}

/// If the first `j` characters are white space and the next one (if any)
/// is not, trimming the start drops exactly those `j`.
proof fn lemma_trim_start_run(s: Seq<char>, j: int)
    requires
        0 <= j <= s.len(),
        forall|k: int| 0 <= k < j ==> is_white_space(s[k]),
        j < s.len() ==> !is_white_space(s[j]),
    ensures
        trim_start(s) == s.skip(j),
    decreases j,
{
    if j == 0 {
        assert(s.skip(0) =~= s);
    } else {
        lemma_trim_start_run(s.drop_first(), j - 1);
        assert(forall|k: int| 0 <= k < j - 1 ==> s.drop_first()[k] == s[k + 1]);
        if j - 1 < s.drop_first().len() {
            assert(s.drop_first()[j - 1] == s[j]);
        }
        assert(s.drop_first().skip(j - 1) =~= s.skip(j));
    }
}

/// If the last `j` characters are white space and the one before them
/// (if any) is not, trimming the end drops exactly those `j`.
proof fn lemma_trim_end_run(s: Seq<char>, j: int)
    requires
        0 <= j <= s.len(),
        forall|k: int| s.len() - j <= k < s.len() ==> is_white_space(s[k]),
        j < s.len() ==> !is_white_space(s[s.len() - j - 1]),
    ensures
        trim_end(s) == s.take(s.len() - j),
    decreases j,
{
    if j == 0 {
        assert(s.take(s.len() as int) =~= s);
    } else {
        lemma_trim_end_run(s.drop_last(), j - 1);
        assert(forall|k: int| 0 <= k < s.len() - 1 ==> s.drop_last()[k] == s[k]);
        assert(s.drop_last().take(s.len() - j) =~= s.take(s.len() - j));
    }
}

/// `s` with leading and trailing white space removed.
pub fn trim_chars(s: &str) -> (r: &str)
    ensures
        r@ == spec_trim(s@),
{
    let n = s.unicode_len();
    let mut a: usize = 0;
    while a < n && is_white_space_char(s.get_char(a))
        invariant
            a <= n,
            n == s@.len(),
            forall|k: int| 0 <= k < a ==> is_white_space(s@[k]),
        decreases n - a,
    {
        a = a + 1;
    }
    proof {
        lemma_trim_start_run(s@, a as int);
    }
    let mut b: usize = n;
    while b > a && is_white_space_char(s.get_char(b - 1))
        invariant
            a <= b <= n,
            n == s@.len(),
            forall|k: int| b <= k < n ==> is_white_space(s@[k]),
        decreases b,
    {
        b = b - 1;
    }
    proof {
        let t = s@.skip(a as int);
        assert(forall|k: int| 0 <= k < t.len() ==> t[k] == s@[a + k]);
        lemma_trim_end_run(t, n - b);
        assert(t.take(b - a) =~= s@.subrange(a as int, b as int));
    }
    s.substring_char(a, b)
}

// ---------------------------------------------------------------------------
// Tokens
// ---------------------------------------------------------------------------

/// A lexical token of a code block's inner text.
#[derive(Debug)]
pub enum Token {
    If,
    Endif,
    For,
    Endfor,
    Pipe,
    Variable(String),
    Filter(Filter),
}

/// The mathematical image of a [`Token`].
pub enum TokenModel {
    If,
    Endif,
    For,
    Endfor,
    Pipe,
    Variable(Seq<char>),
    Filter(Filter),
}

impl View for Token {
    type V = TokenModel;

    open spec fn view(&self) -> TokenModel {
        match self {
            Token::If => TokenModel::If,
            Token::Endif => TokenModel::Endif,
            Token::For => TokenModel::For,
            Token::Endfor => TokenModel::Endfor,
            Token::Pipe => TokenModel::Pipe,
            Token::Variable(s) => TokenModel::Variable(s@),
            Token::Filter(f) => TokenModel::Filter(*f),
        }
    }
}

/// The token a single word denotes: an exact keyword, pipe or filter
/// name, and any other word a variable reference, carried verbatim.
pub open spec fn spec_word_token(w: Seq<char>) -> TokenModel {
    if w == seq!['i', 'f'] {
        TokenModel::If
    } else if w == seq!['e', 'n', 'd', 'i', 'f'] {
        TokenModel::Endif
    } else if w == seq!['|', '>'] {
        TokenModel::Pipe
    } else if w == seq!['f', 'o', 'r'] {
        TokenModel::For
    } else if w == seq!['e', 'n', 'd', 'f', 'o', 'r'] {
        TokenModel::Endfor
    } else if w == seq!['u', 'p', 'p', 'e', 'r'] {
        TokenModel::Filter(Filter::Uppercase)
    } else if w == seq!['l', 'o', 'w', 'e', 'r'] {
        TokenModel::Filter(Filter::Lowercase)
    } else {
        TokenModel::Variable(w)
    }
}

/// The words of `s`: split on single spaces, keeping empty words.
pub open spec fn split_words(s: Seq<char>) -> Seq<Seq<char>>
    decreases s.len(),
    via split_words_decreases
{
    let i = find_first(s, ' ');
    if i >= s.len() {
        seq![s]
    } else {
        seq![s.take(i)] + split_words(s.skip(i + 1))
    }
}

#[via_fn]
proof fn split_words_decreases(s: Seq<char>) {
    lemma_find_first(s, ' ');
}

/// The token sequence of a code chunk's inner text: trim it, split it on
/// single spaces, and read each word as a token.
pub open spec fn spec_tokenize(s: Seq<char>) -> Seq<TokenModel> {
    split_words(spec_trim(s)).map_values(|w: Seq<char>| spec_word_token(w))
}

/// The token a single word denotes.
fn word_to_token(w: &str) -> (t: Token)
    ensures
        t@ == spec_word_token(w@),
{
    proof {
        reveal_strlit("if");
        reveal_strlit("endif");
        reveal_strlit("|>");
        reveal_strlit("for");
        reveal_strlit("endfor");
        reveal_strlit("upper");
        reveal_strlit("lower");
        assert("if"@ =~= seq!['i', 'f']);
        assert("endif"@ =~= seq!['e', 'n', 'd', 'i', 'f']);
        assert("|>"@ =~= seq!['|', '>']);
        assert("for"@ =~= seq!['f', 'o', 'r']);
        assert("endfor"@ =~= seq!['e', 'n', 'd', 'f', 'o', 'r']);
        assert("upper"@ =~= seq!['u', 'p', 'p', 'e', 'r']);
        assert("lower"@ =~= seq!['l', 'o', 'w', 'e', 'r']);
    }
    if str_eq(w, "if") {
        Token::If
    } else if str_eq(w, "endif") {
        Token::Endif
    } else if str_eq(w, "|>") {
        Token::Pipe
    } else if str_eq(w, "for") {
        Token::For
    } else if str_eq(w, "endfor") {
        Token::Endfor
    } else if str_eq(w, "upper") {
        Token::Filter(Filter::Uppercase)
    } else if str_eq(w, "lower") {
        Token::Filter(Filter::Lowercase)
    } else {
        Token::Variable(String::from_str(w))
    }
}

/// Tokenize a code chunk's inner text.
#[verifier::loop_isolation(false)]
pub fn chunk_to_tokens(chunk: &String) -> (tokens: Vec<Token>)
    ensures
        tokens@.map_values(|t: Token| t@) == spec_tokenize(chunk@),
{
    let trimmed = trim_chars(chunk.as_str());
    let ghost full = trimmed@;
    let n = trimmed.unicode_len();
    let mut tokens: Vec<Token> = Vec::new();
    let mut pos: usize = 0;
    let mut done = false;
    proof {
        assert(full.skip(0) =~= full);
        assert(tokens@.map_values(|t: Token| t@) =~= Seq::<TokenModel>::empty());
        assert(Seq::<TokenModel>::empty() + split_words(full).map_values(
            |w: Seq<char>| spec_word_token(w),
        ) =~= split_words(full).map_values(|w: Seq<char>| spec_word_token(w)));
    }
    while !done
        invariant
            pos <= n,
            !done ==> spec_tokenize(chunk@) == tokens@.map_values(|t: Token| t@) + split_words(
                full.skip(pos as int),
            ).map_values(|w: Seq<char>| spec_word_token(w)),
            done ==> spec_tokenize(chunk@) == tokens@.map_values(|t: Token| t@),
        decreases n - pos, (if done {
            0int
        } else {
            1int
        }),
    {
        let ghost rest = full.skip(pos as int);
        let sp = find_char_from(trimmed, pos, ' ');
        proof {
            assert forall|k: int| 0 <= k < sp - pos implies rest[k] != ' ' by {
                assert(rest[k] == full[pos + k]);
            }
            lemma_find_first_unique(rest, ' ', sp - pos);
        }
        let word = trimmed.substring_char(pos, sp);
        let ghost old_tokens = tokens@;
        tokens.push(word_to_token(word));
        proof {
            assert(word@ =~= rest.take(sp - pos));
            assert(tokens@.map_values(|t: Token| t@) =~= old_tokens.map_values(|t: Token| t@)
                + seq![spec_word_token(rest.take(sp - pos))]);
        }
        if sp == n {
            proof {
                assert(rest.take(sp - pos) =~= rest);
                assert(split_words(rest) =~= seq![rest]);
                assert(split_words(rest).map_values(|w: Seq<char>| spec_word_token(w))
                    =~= seq![spec_word_token(rest)]);
            }
            done = true;
        } else {
            proof {
                assert(rest.skip((sp - pos) + 1) =~= full.skip(sp + 1));
                assert(split_words(rest) == seq![rest.take(sp - pos)] + split_words(
                    full.skip(sp + 1),
                ));
                assert((old_tokens.map_values(|t: Token| t@) + seq![
                    spec_word_token(rest.take(sp - pos)),
                ]) + split_words(full.skip(sp + 1)).map_values(|w: Seq<char>| spec_word_token(w))
                    =~= old_tokens.map_values(|t: Token| t@) + (seq![
                    spec_word_token(rest.take(sp - pos)),
                ] + split_words(full.skip(sp + 1)).map_values(|w: Seq<char>| spec_word_token(w))));
                assert(seq![spec_word_token(rest.take(sp - pos))] + split_words(
                    full.skip(sp + 1),
                ).map_values(|w: Seq<char>| spec_word_token(w)) =~= split_words(rest).map_values(
                    |w: Seq<char>| spec_word_token(w),
                ));
            }
            pos = sp + 1;
        }
    }
    tokens
}

// ---------------------------------------------------------------------------
// The template tree
// ---------------------------------------------------------------------------

/// A value block: one variable reference, optionally piped through
/// filters.
#[derive(Debug)]
pub struct Value {
    tokens: Vec<Token>,
}

/// A logic block: recognized syntactically, not evaluated.
#[derive(Debug)]
pub struct Logic {
    tokens: Vec<Token>,
}

/// A code block of either kind.
#[derive(Debug)]
pub enum Code {
    Value(Value),
    Logic(Logic),
}

/// A node of the template tree.
#[derive(Debug)]
pub enum TemplateTreeNode {
    Literal(String),
    Code(Code),
}

/// The ordered sequence of nodes one template parses to.
#[derive(Debug)]
pub struct TemplateTree {
    nodes: Vec<TemplateTreeNode>,
}

/// The mathematical image of a [`Code`] block.
pub enum CodeModel {
    Value(Seq<TokenModel>),
    Logic(Seq<TokenModel>),
}

/// The mathematical image of a [`TemplateTreeNode`].
pub enum NodeModel {
    Literal(Seq<char>),
    Code(CodeModel),
}

impl View for Value {
    type V = Seq<TokenModel>;

    closed spec fn view(&self) -> Seq<TokenModel> {
        self.tokens@.map_values(|t: Token| t@)
    }
}

impl View for Logic {
    type V = Seq<TokenModel>;

    closed spec fn view(&self) -> Seq<TokenModel> {
        self.tokens@.map_values(|t: Token| t@)
    }
}

impl View for Code {
    type V = CodeModel;

    open spec fn view(&self) -> CodeModel {
        match self {
            Code::Value(v) => CodeModel::Value(v@),
            Code::Logic(l) => CodeModel::Logic(l@),
        }
    }
}

impl View for TemplateTreeNode {
    type V = NodeModel;

    open spec fn view(&self) -> NodeModel {
        match self {
            TemplateTreeNode::Literal(s) => NodeModel::Literal(s@),
            TemplateTreeNode::Code(c) => NodeModel::Code(c@),
        }
    }
}

impl View for TemplateTree {
    type V = Seq<NodeModel>;

    closed spec fn view(&self) -> Seq<NodeModel> {
        self.nodes@.map_values(|n: TemplateTreeNode| n@)
    }
}

// ---------------------------------------------------------------------------
// Evaluation, specified
// ---------------------------------------------------------------------------

/// The value grammar's state machine, read left to right. `acc` is the
/// text accumulated so far and `expect_pipe` says whether the machine is
/// ready for a pipe or the end of the stream.
///
/// A variable reference looks its trimmed identifier up in the context
/// and replaces the accumulator; a filter transforms the accumulator; a
/// pipe makes a filter required next. A variable or a filter in filter
/// position, a logic keyword anywhere, and a stream that ends while a
/// filter is required are grammar errors; an identifier absent from the
/// context and a non-string value are lookup and type errors.
pub open spec fn spec_eval_value_state(
    tokens: Seq<TokenModel>,
    ctx: Map<Seq<char>, ContextValue>,
    acc: Seq<char>,
    expect_pipe: bool,
) -> Result<Seq<char>, RenderError>
    decreases tokens.len(),
{
    if tokens.len() == 0 {
        if expect_pipe {
            Ok(acc)
        } else {
            Err(RenderError::Grammar)
        }
    } else {
        match tokens[0] {
            TokenModel::Variable(id) => if expect_pipe {
                Err(RenderError::Grammar)
            } else {
                let key = spec_trim(id);
                if !ctx.contains_key(key) {
                    Err(RenderError::ContextLookup)
                } else {
                    match ctx[key] {
                        ContextValue::Text(s) => spec_eval_value_state(
                            tokens.drop_first(),
                            ctx,
                            s@,
                            true,
                        ),
                        ContextValue::Other => Err(RenderError::ValueType),
                    }
                }
            },
            TokenModel::Pipe => spec_eval_value_state(tokens.drop_first(), ctx, acc, false),
            TokenModel::Filter(f) => if expect_pipe {
                Err(RenderError::Grammar)
            } else {
                spec_eval_value_state(tokens.drop_first(), ctx, spec_apply_filter(f, acc), true)
            },
            _ => Err(RenderError::Grammar),
        }
    }
}

/// What a value block's token stream renders to, from the initial state:
/// empty accumulator, no pipe expected.
pub open spec fn spec_eval_value(
    tokens: Seq<TokenModel>,
    ctx: Map<Seq<char>, ContextValue>,
) -> Result<Seq<char>, RenderError> {
    spec_eval_value_state(tokens, ctx, Seq::empty(), false)
}

/// The marker a logic block renders to while logic evaluation remains an
/// open extension point.
pub open spec fn logic_marker() -> Seq<char> {
    "Logic block"@
}

/// What a code block renders to.
pub open spec fn spec_eval_code(
    c: CodeModel,
    ctx: Map<Seq<char>, ContextValue>,
) -> Result<Seq<char>, RenderError> {
    match c {
        CodeModel::Value(tokens) => spec_eval_value(tokens, ctx),
        CodeModel::Logic(_) => Ok(logic_marker()),
    }
}

/// What one tree node renders to.
pub open spec fn spec_eval_node(
    n: NodeModel,
    ctx: Map<Seq<char>, ContextValue>,
) -> Result<Seq<char>, RenderError> {
    match n {
        NodeModel::Literal(s) => Ok(s),
        NodeModel::Code(c) => spec_eval_code(c, ctx),
    }
}

/// What a node sequence renders to: each node's text in source order,
/// concatenated; the first failing node's error otherwise.
pub open spec fn spec_render_nodes(
    nodes: Seq<NodeModel>,
    ctx: Map<Seq<char>, ContextValue>,
) -> Result<Seq<char>, RenderError>
    decreases nodes.len(),
{
    if nodes.len() == 0 {
        Ok(Seq::empty())
    } else {
        match spec_eval_node(nodes[0], ctx) {
            Err(e) => Err(e),
            Ok(s) => match spec_render_nodes(nodes.drop_first(), ctx) {
                Err(e) => Err(e),
                Ok(r) => Ok(s + r),
            },
        }
    }
}

/// The node a chunk builds to. A literal chunk stays literal. A code
/// chunk whose text is wrapped in `%` (the remainder of a `{% ... %}`
/// pair once the braces are consumed) is a logic block, its interior
/// tokenized; any other code chunk is a value block.
pub open spec fn spec_build_chunk(c: ChunkModel) -> NodeModel {
    match c {
        ChunkModel::Literal(s) => NodeModel::Literal(s),
        ChunkModel::Code(s) => if s.len() >= 2 && s[0] == '%' && s[s.len() - 1] == '%' {
            NodeModel::Code(CodeModel::Logic(spec_tokenize(s.subrange(1, s.len() - 1))))
        } else {
            NodeModel::Code(CodeModel::Value(spec_tokenize(s)))
        },
    }
}

/// What a whole template renders to against a context: segmentation,
/// tree building and node rendering, composed.
pub open spec fn spec_render(
    t: Seq<char>,
    ctx: Map<Seq<char>, ContextValue>,
) -> Result<Seq<char>, RenderError> {
    match spec_segment(t, '{', '}') {
        None => Err(RenderError::Segmentation),
        Some(cs) => spec_render_nodes(cs.map_values(|c: ChunkModel| spec_build_chunk(c)), ctx),
    }
}

// ---------------------------------------------------------------------------
// Evaluation, executed
// ---------------------------------------------------------------------------

impl Value {
    /// Render this value block against `context`.
    #[verifier::loop_isolation(false)]
    pub fn render(&self, context: &Context) -> (r: Result<String, RenderError>)
        ensures
            (match spec_eval_value(self@, context@) {
                Ok(s) => r is Ok && r->Ok_0@ == s,
                Err(e) => r is Err && r->Err_0 == e,
            }),
    {
        let mut rendered_string = String::new();
        let mut next_is_pipe = false;
        let n = self.tokens.len();
        let mut i: usize = 0;
        proof {
            assert(self@.skip(0) =~= self@);
        }
        while i < n
            invariant
                i <= n,
                spec_eval_value(self@, context@) == spec_eval_value_state(
                    self@.skip(i as int),
                    context@,
                    rendered_string@,
                    next_is_pipe,
                ),
            decreases n - i,
        {
            proof {
                assert(self@.skip(i as int)[0] == self@[i as int]);
                assert(self@.skip(i as int).drop_first() =~= self@.skip(i + 1));
            }
            match &self.tokens[i] {
                Token::Variable(identifier) => {
                    if next_is_pipe {
                        return Err(RenderError::Grammar);
                    }
                    let key = trim_chars(identifier.as_str());
                    match context.get(key) {
                        None => {
                            return Err(RenderError::ContextLookup);
                        },
                        Some(value) => {
                            match value {
                                ContextValue::Text(s) => {
                                    rendered_string = s.clone();
                                },
                                ContextValue::Other => {
                                    return Err(RenderError::ValueType);
                                },
                            }
                        },
                    }
                    next_is_pipe = true;
                },
                Token::Pipe => {
                    next_is_pipe = false;
                },
                Token::Filter(filter) => {
                    if next_is_pipe {
                        return Err(RenderError::Grammar);
                    }
                    rendered_string = filter.apply_on(rendered_string);
                    next_is_pipe = true;
                },
                Token::If | Token::Endif | Token::For | Token::Endfor => {
                    return Err(RenderError::Grammar);
                },
            }
            i = i + 1;
        }
        proof {
            assert(self@.skip(n as int).len() == 0);
        }
        if !next_is_pipe {
            return Err(RenderError::Grammar);
        }
        Ok(rendered_string)
    }
}

impl Code {
    /// Render this code block against `context`.
    pub fn render(&self, context: &Context) -> (r: Result<String, RenderError>)
        ensures
            (match spec_eval_code(self@, context@) {
                Ok(s) => r is Ok && r->Ok_0@ == s,
                Err(e) => r is Err && r->Err_0 == e,
            }),
    {
        match self {
            Code::Value(v) => v.render(context),
            Code::Logic(_) => Ok(String::from_str("Logic block")),
        }
    }
}

impl TemplateTreeNode {
    /// Render this node against `context`.
    pub fn render(&self, context: &Context) -> (r: Result<String, RenderError>)
        ensures
            (match spec_eval_node(self@, context@) {
                Ok(s) => r is Ok && r->Ok_0@ == s,
                Err(e) => r is Err && r->Err_0 == e,
            }),
    {
        match self {
            TemplateTreeNode::Literal(text) => Ok(text.clone()),
            TemplateTreeNode::Code(code) => code.render(context),
        }
    }
}

impl TemplateTree {
    /// Render the whole tree against `context`: every node's text in
    /// source order, or the first failing node's error.
    #[verifier::loop_isolation(false)]
    pub fn rendered(&self, context: &Context) -> (r: Result<String, RenderError>)
        ensures
            (match spec_render_nodes(self@, context@) {
                Ok(s) => r is Ok && r->Ok_0@ == s,
                Err(e) => r is Err && r->Err_0 == e,
            }),
    {
        let mut output = String::new();
        let n = self.nodes.len();
        let mut i: usize = 0;
        proof {
            assert(self@.skip(0) =~= self@);
        }
        while i < n
            invariant
                i <= n,
                spec_render_nodes(self@, context@) == (match spec_render_nodes(
                    self@.skip(i as int),
                    context@,
                ) {
                    Err(e) => Err::<Seq<char>, RenderError>(e),
                    Ok(rest) => Ok(output@ + rest),
                }),
            decreases n - i,
        {
            proof {
                assert(self@.skip(i as int)[0] == self@[i as int]);
                assert(self@.skip(i as int).drop_first() =~= self@.skip(i + 1));
            }
            let ghost old_output = output@;
            match self.nodes[i].render(context) {
                Err(e) => {
                    return Err(e);
                },
                Ok(piece) => {
                    output.append(piece.as_str());
                },
            }
            proof {
                if spec_render_nodes(self@.skip(i + 1), context@) is Ok {
                    let rest = spec_render_nodes(self@.skip(i + 1), context@)->Ok_0;
                    assert(old_output + (spec_eval_node(self@[i as int], context@)->Ok_0 + rest)
                        =~= output@ + rest);
                }
            }
            i = i + 1;
        }
        proof {
            assert(self@.skip(n as int).len() == 0);
            assert(output@ + Seq::<char>::empty() =~= output@);
        }
        Ok(output)
    }
}

// ---------------------------------------------------------------------------
// Tree building
// ---------------------------------------------------------------------------

/// Build the tree node a code chunk's text denotes.
pub fn build_code_node(chunk: &String) -> (node: TemplateTreeNode)
    ensures
        node@ == spec_build_chunk(ChunkModel::Code(chunk@)),
{
    let n = chunk.unicode_len();
    proof {
        reveal_strlit("%");
        assert("%"@ =~= seq!['%']);
    }
    let is_logic_line = n >= 2 && chunk.starts_then_ends_with("%", "%");
    proof {
        if n >= 2 {
            assert(seq!['%'].is_prefix_of(chunk@) == (chunk@[0] == '%')) by {
                if chunk@[0] == '%' {
                    assert(seq!['%'] =~= chunk@.subrange(0, 1));
                } else {
                    assert(seq!['%'][0] == '%');
                }
            }
            assert(seq!['%'].is_suffix_of(chunk@) == (chunk@[n - 1] == '%')) by {
                if chunk@[n - 1] == '%' {
                    assert(seq!['%'] =~= chunk@.subrange(n - 1, n as int));
                } else {
                    assert(seq!['%'][0] == '%');
                }
            }
        }
    }
    if is_logic_line {
        let inner = String::from_str(chunk.as_str().substring_char(1, n - 1));
        proof {
            assert(inner@ =~= chunk@.subrange(1, n - 1));
        }
        TemplateTreeNode::Code(Code::Logic(Logic { tokens: chunk_to_tokens(&inner) }))
    } else {
        TemplateTreeNode::Code(Code::Value(Value { tokens: chunk_to_tokens(chunk) }))
    }
}

/// Parse a template into its tree: segment it on the brace delimiters,
/// then build a node from each chunk. Fails exactly when segmentation
/// fails.
#[verifier::loop_isolation(false)]
pub fn parse_tree(content: String) -> (r: Result<TemplateTree, RenderError>)
    ensures
        (match spec_segment(content@, '{', '}') {
            None => r is Err && r->Err_0 == RenderError::Segmentation,
            Some(cs) => r is Ok && r->Ok_0@ == cs.map_values(|c: ChunkModel| spec_build_chunk(c)),
        }),
{
    proof {
        reveal_strlit("{");
        reveal_strlit("}");
        assert("{"@ =~= seq!['{']);
        assert("}"@ =~= seq!['}']);
    }
    let chunks = match content.split_in_chunks_inclusive("{", "}") {
        Err(e) => {
            return Err(e);
        },
        Ok(chunks) => chunks,
    };
    let ghost cs = chunks@.map_values(|c: Chunk| c@);
    let mut nodes: Vec<TemplateTreeNode> = Vec::new();
    let n = chunks.len();
    let mut i: usize = 0;
    while i < n
        invariant
            i <= n,
            nodes@.map_values(|nd: TemplateTreeNode| nd@) =~= cs.take(i as int).map_values(
                |c: ChunkModel| spec_build_chunk(c),
            ),
        decreases n - i,
    {
        let ghost old_nodes = nodes@;
        match &chunks[i] {
            Chunk::Literal(text) => {
                nodes.push(TemplateTreeNode::Literal(text.clone()));
            },
            Chunk::Code(text) => {
                nodes.push(build_code_node(text));
            },
        }
        proof {
            assert(cs.take(i + 1).drop_last() =~= cs.take(i as int));
            assert(nodes@.map_values(|nd: TemplateTreeNode| nd@) =~= old_nodes.map_values(
                |nd: TemplateTreeNode| nd@,
            ).push(spec_build_chunk(cs[i as int])));
            assert(cs.take(i + 1).map_values(|c: ChunkModel| spec_build_chunk(c)) =~= cs.take(
                i as int,
            ).map_values(|c: ChunkModel| spec_build_chunk(c)).push(spec_build_chunk(cs[i as int])));
        }
        i = i + 1;
    }
    proof {
        assert(cs.take(n as int) =~= cs);
    }
    Ok(TemplateTree { nodes })
}

/// Render `content` against `context`: the whole output string, or the
/// first error met; nothing partial.
pub fn render(content: String, context: Context) -> (r: Result<String, RenderError>)
    ensures
        (match spec_render(content@, context@) {
            Ok(s) => r is Ok && r->Ok_0@ == s,
            Err(e) => r is Err && r->Err_0 == e,
        }),
{
    let node_tree = match parse_tree(content) {
        Err(e) => {
            return Err(e);
        },
        Ok(tree) => tree,
    };
    node_tree.rendered(&context)
}

} // verus!
