use vstd::prelude::*;

use crate::interface::{
    params_view, strings_view, Duplicate, Function, FunctionParam, SpecFunction, SpecParam,
    StringMap,
};
use crate::token::{tokens_view, SpecToken, Token};

verus! {

/// Where the interface parser stands in the grammar.
#[derive(Debug, PartialEq, Eq, Structural, Hash, Clone, Copy)]
pub enum StateMachine {
    State0,
    ProtoBuf,
    ParsingClass,
    ParsingClassFunctions,
    ParsingFunctionName,
    ParsingFunctionArgs,
    ParsingFunctionArgsWord,
    ParsingFunctionArgsName,
    ParsingFunctionArgsType,
    ParsingAsync,
    ParsingFunctionResult,
    ParsingFunctionResultWord,
    ParsingFunctionResultSemicolon,
}

impl Default for StateMachine {
    fn default() -> (r: Self)
        ensures
            r == StateMachine::State0,
    {
        StateMachine::State0
    }
}

/// The functions of one interface class, by name.
pub type InterfaceClass = StringMap<Function>;

/// The classes of an interface, by name.
pub type Interface = StringMap<InterfaceClass>;

/// The value of an [`InterfaceClass`].
pub type SpecClass = Map<Seq<char>, SpecFunction>;

/// The value of an [`Interface`].
pub type SpecInterface = Map<Seq<char>, SpecClass>;

/// Parses a token stream into interface classes, one token at a time; its
/// state persists between calls.
#[derive(Debug)]
pub struct InterfaceBuilder {
    state: StateMachine,
    classes: Interface,
    current_i_class: InterfaceClass,
    current_function_name: String,
    current_param: FunctionParam,
    current_function_args: Vec<FunctionParam>,
    current_class: String,
    current_function_results: Vec<String>,
    protobuf_depth: i32,
    is_async: bool,
    stopped_at: Option<usize>,
}

/// The value of an [`InterfaceBuilder`].
pub struct BuilderView {
    pub state: StateMachine,
    pub classes: SpecInterface,
    pub current_i_class: SpecClass,
    pub current_function_name: Seq<char>,
    pub current_param: SpecParam,
    pub current_function_args: Seq<SpecParam>,
    pub current_class: Seq<char>,
    pub current_function_results: Seq<Seq<char>>,
    pub protobuf_depth: int,
    pub is_async: bool,
}

impl View for InterfaceBuilder {
    type V = BuilderView;

    closed spec fn view(&self) -> BuilderView {
        BuilderView {
            state: self.state,
            classes: self.classes@,
            current_i_class: self.current_i_class@,
            current_function_name: self.current_function_name@,
            current_param: self.current_param@,
            current_function_args: params_view(self.current_function_args@),
            current_class: self.current_class@,
            current_function_results: strings_view(self.current_function_results@),
            protobuf_depth: self.protobuf_depth as int,
            is_async: self.is_async,
        }
    }
}

/// A builder that has read nothing.
pub open spec fn initial_builder() -> BuilderView {
    BuilderView {
        state: StateMachine::State0,
        classes: Map::empty(),
        current_i_class: Map::empty(),
        current_function_name: seq![],
        current_param: SpecParam { name: seq![], ty: seq![] },
        current_function_args: seq![],
        current_class: seq![],
        current_function_results: seq![],
        protobuf_depth: 0,
        is_async: false,
    }
}

/// Files the class being read under its name.
pub open spec fn store_class(b: BuilderView) -> SpecInterface {
    b.classes.insert(b.current_class, b.current_i_class)
}

/// What the parser does with one token: the next state, or `None` when the
/// token is unexpected there and parsing stops. Whitespace is skipped in
/// every state; a `message` block is skipped up to its matching brace.
pub open spec fn step(b: BuilderView, t: SpecToken) -> Option<BuilderView> {
    if t is Whitespace {
        Some(b)
    } else {
        match b.state {
            StateMachine::State0 => match t {
                SpecToken::Class => Some(
                    if b.current_i_class == Map::<Seq<char>, SpecFunction>::empty() {
                        BuilderView { state: StateMachine::ParsingClass, ..b }
                    } else {
                        BuilderView {
                            state: StateMachine::ParsingClass,
                            classes: store_class(b),
                            current_i_class: Map::empty(),
                            current_class: seq![],
                            ..b
                        }
                    },
                ),
                SpecToken::Message => Some(BuilderView { state: StateMachine::ProtoBuf, ..b }),
                _ => Some(b),
            },
            StateMachine::ProtoBuf => match t {
                SpecToken::CurlyOpen => Some(
                    BuilderView { protobuf_depth: b.protobuf_depth + 1, ..b },
                ),
                SpecToken::CurlyClose => Some(
                    BuilderView {
                        protobuf_depth: b.protobuf_depth - 1,
                        state: if b.protobuf_depth - 1 == 0 {
                            StateMachine::State0
                        } else {
                            StateMachine::ProtoBuf
                        },
                        ..b
                    },
                ),
                _ => Some(b),
            },
            StateMachine::ParsingClass => match t {
                SpecToken::Word(n) => Some(
                    BuilderView {
                        current_class: n,
                        state: StateMachine::ParsingClassFunctions,
                        ..b
                    },
                ),
                SpecToken::CurlyClose => Some(
                    BuilderView { classes: store_class(b), state: StateMachine::State0, ..b },
                ),
                _ => None,
            },
            StateMachine::ParsingClassFunctions => match t {
                SpecToken::CurlyOpen => Some(
                    BuilderView { state: StateMachine::ParsingFunctionName, ..b },
                ),
                _ => None,
            },
            StateMachine::ParsingFunctionName => match t {
                SpecToken::Word(n) => Some(
                    BuilderView {
                        current_function_name: n,
                        state: StateMachine::ParsingFunctionArgs,
                        ..b
                    },
                ),
                SpecToken::CurlyClose => Some(
                    BuilderView { classes: store_class(b), state: StateMachine::State0, ..b },
                ),
                _ => None,
            },
            StateMachine::ParsingFunctionArgs => match t {
                SpecToken::ParenOpen => Some(
                    BuilderView { state: StateMachine::ParsingFunctionArgsWord, ..b },
                ),
                _ => None,
            },
            StateMachine::ParsingFunctionArgsWord => match t {
                SpecToken::ParenClose => Some(
                    BuilderView { state: StateMachine::ParsingAsync, ..b },
                ),
                SpecToken::Word(a) => Some(
                    BuilderView {
                        current_param: SpecParam { name: a, ty: b.current_param.ty },
                        state: StateMachine::ParsingFunctionArgsName,
                        ..b
                    },
                ),
                SpecToken::Comma => Some(b),
                _ => None,
            },
            StateMachine::ParsingFunctionArgsName => match t {
                SpecToken::Colon => Some(
                    BuilderView { state: StateMachine::ParsingFunctionArgsType, ..b },
                ),
                _ => None,
            },
            StateMachine::ParsingFunctionArgsType => match t {
                SpecToken::Word(a) => Some(
                    BuilderView {
                        current_param: SpecParam { name: b.current_param.name, ty: a },
                        current_function_args: b.current_function_args.push(
                            SpecParam { name: b.current_param.name, ty: a },
                        ),
                        state: StateMachine::ParsingFunctionArgsWord,
                        ..b
                    },
                ),
                _ => None,
            },
            StateMachine::ParsingAsync => match t {
                SpecToken::Async => Some(BuilderView { is_async: true, ..b }),
                SpecToken::Arrow => Some(
                    BuilderView { state: StateMachine::ParsingFunctionResult, ..b },
                ),
                _ => None,
            },
            StateMachine::ParsingFunctionResult => match t {
                SpecToken::ParenOpen => Some(
                    BuilderView { state: StateMachine::ParsingFunctionResultWord, ..b },
                ),
                _ => None,
            },
            StateMachine::ParsingFunctionResultWord => match t {
                SpecToken::ParenClose => Some(
                    BuilderView { state: StateMachine::ParsingFunctionResultSemicolon, ..b },
                ),
                SpecToken::Word(r) => Some(
                    BuilderView {
                        current_function_results: b.current_function_results.push(r),
                        ..b
                    },
                ),
                SpecToken::Comma => Some(b),
                _ => None,
            },
            StateMachine::ParsingFunctionResultSemicolon => match t {
                SpecToken::Semicolon => Some(
                    BuilderView {
                        current_i_class: b.current_i_class.insert(
                            b.current_function_name,
                            SpecFunction {
                                is_async: b.is_async,
                                input: b.current_function_args,
                                output: b.current_function_results,
                            },
                        ),
                        is_async: false,
                        current_function_args: seq![],
                        current_function_results: seq![],
                        state: StateMachine::ParsingFunctionName,
                        ..b
                    },
                ),
                _ => None,
            },
        }
    }
}

/// Runs the parser from `b` over `ts`, stopping at the first unexpected token.
pub open spec fn run(b: BuilderView, ts: Seq<SpecToken>) -> BuilderView
    decreases ts.len(),
{
    if ts.len() == 0 {
        b
    } else {
        match step(b, ts[0]) {
            Some(next) => run(next, ts.drop_first()),
            None => b,
        }
    }
}

/// The parser, started in `b`, reads `ts[0..k]` without a stop and stops at
/// `ts[k]`: the first token that matches no transition in the state reached.
pub open spec fn stops_at(b: BuilderView, ts: Seq<SpecToken>, k: int) -> bool {
    &&& 0 <= k < ts.len()
    &&& forall|i: int| 0 <= i < k ==> #[trigger] step(run(b, ts.take(i)), ts[i]) is Some
    &&& step(run(b, ts.take(k)), ts[k]) is None
}

proof fn lemma_run_take_succ(b: BuilderView, ts: Seq<SpecToken>, i: int)
    requires
        0 <= i < ts.len(),
        step(b, ts[0]) is Some,
    ensures
        run(b, ts.take(i + 1)) == run(step(b, ts[0])->0, ts.drop_first().take(i)),
{
    let t = ts.take(i + 1);
    assert(t[0] == ts[0]);
    assert(t.drop_first() =~= ts.drop_first().take(i));
}

/// Reading `ts` is reading `ts[0..k]` and then the rest, when nothing in
/// `ts[0..k]` stops the parser.
pub(crate) proof fn lemma_run_split(b: BuilderView, ts: Seq<SpecToken>, k: int)
    requires
        0 <= k <= ts.len(),
        forall|i: int| 0 <= i < k ==> #[trigger] step(run(b, ts.take(i)), ts[i]) is Some,
    ensures
        run(b, ts) == run(run(b, ts.take(k)), ts.skip(k)),
    decreases k,
{
    if k == 0 {
        assert(ts.take(0) =~= Seq::<SpecToken>::empty());
        assert(ts.skip(0) =~= ts);
    } else {
        assert(ts.take(0) =~= Seq::<SpecToken>::empty());
        assert(step(run(b, ts.take(0)), ts[0]) is Some);
        let n = step(b, ts[0])->0;
        let tail = ts.drop_first();
        assert forall|i: int| 0 <= i < k - 1 implies #[trigger] step(run(n, tail.take(i)), tail[i]) is Some by {
            lemma_run_take_succ(b, ts, i);
            assert(step(run(b, ts.take(i + 1)), ts[i + 1]) is Some);
        }
        lemma_run_split(n, tail, k - 1);
        lemma_run_take_succ(b, ts, k - 1);
        assert(tail.skip(k - 1) =~= ts.skip(k));
    }
}

/// Nothing in `ts` stops the parser started in `b`.
pub open spec fn reads_through(b: BuilderView, ts: Seq<SpecToken>) -> bool {
    forall|i: int| 0 <= i < ts.len() ==> #[trigger] step(run(b, ts.take(i)), ts[i]) is Some
}

/// Reading one more token, when nothing before it stopped the parser.
proof fn lemma_run_extend(b: BuilderView, ts: Seq<SpecToken>, i: int)
    requires
        0 <= i < ts.len(),
        forall|j: int| 0 <= j < i ==> #[trigger] step(run(b, ts.take(j)), ts[j]) is Some,
        step(run(b, ts.take(i)), ts[i]) is Some,
    ensures
        run(b, ts.take(i + 1)) == step(run(b, ts.take(i)), ts[i])->0,
{
    let t = ts.take(i + 1);
    assert forall|j: int| 0 <= j < i implies #[trigger] step(run(b, t.take(j)), t[j]) is Some by {
        assert(t.take(j) =~= ts.take(j));
        assert(t[j] == ts[j]);
    }
    lemma_run_split(b, t, i);
    assert(t.take(i) =~= ts.take(i));
    assert(t.skip(i) =~= seq![ts[i]]);
    assert(seq![ts[i]][0] == ts[i]);
    assert(seq![ts[i]].drop_first() =~= Seq::<SpecToken>::empty());
    let x = run(b, ts.take(i));
    let n = step(x, ts[i])->0;
    assert(run(n, Seq::<SpecToken>::empty()) == n);
    assert(run(x, seq![ts[i]]) == n);
}

/// How many tokens of `ts` are `t`.
pub open spec fn occurrences(ts: Seq<SpecToken>, t: SpecToken) -> nat
    decreases ts.len(),
{
    if ts.len() == 0 {
        0
    } else {
        (if ts[0] == t {
            1nat
        } else {
            0nat
        }) + occurrences(ts.drop_first(), t)
    }
}

impl Default for InterfaceBuilder {
    fn default() -> (r: Self)
        ensures
            r@ == initial_builder(),
    {
        InterfaceBuilder::new()
    }
}

impl InterfaceBuilder {
    /// A builder in the initial state, with no class read yet.
    pub fn new() -> (r: Self)
        ensures
            r@ == initial_builder(),
    {
        let r = InterfaceBuilder {
            state: StateMachine::State0,
            classes: StringMap::new(),
            current_i_class: StringMap::new(),
            current_function_name: String::new(),
            current_param: FunctionParam { param_name: String::new(), param_type: String::new() },
            current_function_args: Vec::new(),
            current_class: String::new(),
            current_function_results: Vec::new(),
            protobuf_depth: 0,
            is_async: false,
            stopped_at: None,
        };
        assert(params_view(r.current_function_args@) =~= seq![]);
        assert(strings_view(r.current_function_results@) =~= seq![]);
        r
    }

    /// Where the parser stands in the grammar.
    pub fn state(&self) -> (s: StateMachine)
        ensures
            s == self@.state,
    {
        self.state
    }

    /// The current brace depth inside `message` blocks; a call of
    /// [`Self::parse_token_stream`] may read as many tokens as keep this depth
    /// plus or minus their count inside `i32`.
    pub fn protobuf_depth(&self) -> (d: i32)
        ensures
            d as int == self@.protobuf_depth,
    {
        self.protobuf_depth
    }

    /// Where the last call of [`Self::parse_token_stream`] stopped: the
    /// position of the unexpected token in the stream it was given.
    pub closed spec fn stop_position(&self) -> Option<usize> {
        self.stopped_at
    }

    /// The position, in the stream given to the last call of
    /// [`Self::parse_token_stream`], of the unexpected token that ended the
    /// reading, or `None` when every token was read.
    pub fn unexpected_at(&self) -> (r: Option<usize>)
        ensures
            r == self.stop_position(),
    {
        self.stopped_at
    }

    fn store_current_class(&mut self)
        ensures
            final(self)@ == (BuilderView { classes: store_class(old(self)@), ..old(self)@ }),
            final(self).stopped_at == old(self).stopped_at,
    {
        let name = self.current_class.clone();
        let class = self.current_i_class.duplicate();
        self.classes.insert(name, class);
    }

    /// Takes one token; returns whether it was expected, and leaves the
    /// builder unchanged when it was not.
    fn apply(&mut self, token: &Token) -> (ok: bool)
        requires
            token@ == SpecToken::CurlyOpen ==> old(self)@.protobuf_depth < i32::MAX,
            token@ == SpecToken::CurlyClose ==> old(self)@.protobuf_depth > i32::MIN,
        ensures
            ok == step(old(self)@, token@) is Some,
            ok ==> final(self)@ == step(old(self)@, token@)->0,
            !ok ==> final(self)@ == old(self)@,
            final(self).stopped_at == old(self).stopped_at,
            token@ == SpecToken::CurlyOpen ==> old(self)@.protobuf_depth <= final(self)@.protobuf_depth
                <= old(self)@.protobuf_depth + 1,
            token@ == SpecToken::CurlyClose ==> old(self)@.protobuf_depth - 1
                <= final(self)@.protobuf_depth <= old(self)@.protobuf_depth,
            token@ != SpecToken::CurlyOpen && token@ != SpecToken::CurlyClose
                ==> final(self)@.protobuf_depth == old(self)@.protobuf_depth,
    {
        let ghost b = self@;
        if let Token::Whitespace = token {
            return true;
        }
        match self.state {
            StateMachine::State0 => {
                match token {
                    Token::Class => {
                        if !self.current_i_class.is_empty() {
                            self.store_current_class();
                            self.current_i_class = StringMap::new();
                            self.current_class = String::new();
                        }
                        self.state = StateMachine::ParsingClass;
                    },
                    Token::Message => {
                        self.state = StateMachine::ProtoBuf;
                    },
                    _ => {},
                }
                true
            },
            StateMachine::ProtoBuf => {
                match token {
                    Token::CurlyOpen => {
                        self.protobuf_depth = self.protobuf_depth + 1;
                    },
                    Token::CurlyClose => {
                        self.protobuf_depth = self.protobuf_depth - 1;
                        if self.protobuf_depth == 0 {
                            self.state = StateMachine::State0;
                        }
                    },
                    _ => {},
                }
                true
            },
            StateMachine::ParsingClass => {
                match token {
                    Token::Word(name) => {
                        self.current_class = name.clone();
                        self.state = StateMachine::ParsingClassFunctions;
                        true
                    },
                    Token::CurlyClose => {
                        self.store_current_class();
                        self.state = StateMachine::State0;
                        true
                    },
                    _ => false,
                }
            },
            StateMachine::ParsingClassFunctions => {
                match token {
                    Token::CurlyOpen => {
                        self.state = StateMachine::ParsingFunctionName;
                        true
                    },
                    _ => false,
                }
            },
            StateMachine::ParsingFunctionName => {
                match token {
                    Token::Word(name) => {
                        self.current_function_name = name.clone();
                        self.state = StateMachine::ParsingFunctionArgs;
                        true
                    },
                    Token::CurlyClose => {
                        self.store_current_class();
                        self.state = StateMachine::State0;
                        true
                    },
                    _ => false,
                }
            },
            StateMachine::ParsingFunctionArgs => {
                match token {
                    Token::ParenOpen => {
                        self.state = StateMachine::ParsingFunctionArgsWord;
                        true
                    },
                    _ => false,
                }
            },
            StateMachine::ParsingFunctionArgsWord => {
                match token {
                    Token::ParenClose => {
                        self.state = StateMachine::ParsingAsync;
                        true
                    },
                    Token::Word(arg) => {
                        self.current_param.param_name = arg.clone();
                        self.state = StateMachine::ParsingFunctionArgsName;
                        true
                    },
                    Token::Comma => true,
                    _ => false,
                }
            },
            StateMachine::ParsingFunctionArgsName => {
                match token {
                    Token::Colon => {
                        self.state = StateMachine::ParsingFunctionArgsType;
                        true
                    },
                    _ => false,
                }
            },
            StateMachine::ParsingFunctionArgsType => {
                match token {
                    Token::Word(arg) => {
                        self.current_param.param_type = arg.clone();
                        let param = self.current_param.duplicate();
                        let ghost before = self.current_function_args@;
                        self.current_function_args.push(param);
                        assert(params_view(self.current_function_args@) =~= params_view(before).push(
                            self.current_param@,
                        ));
                        self.state = StateMachine::ParsingFunctionArgsWord;
                        true
                    },
                    _ => false,
                }
            },
            StateMachine::ParsingAsync => {
                match token {
                    Token::Async => {
                        self.is_async = true;
                        true
                    },
                    Token::Arrow => {
                        self.state = StateMachine::ParsingFunctionResult;
                        true
                    },
                    _ => false,
                }
            },
            StateMachine::ParsingFunctionResult => {
                match token {
                    Token::ParenOpen => {
                        self.state = StateMachine::ParsingFunctionResultWord;
                        true
                    },
                    _ => false,
                }
            },
            StateMachine::ParsingFunctionResultWord => {
                match token {
                    Token::ParenClose => {
                        self.state = StateMachine::ParsingFunctionResultSemicolon;
                        true
                    },
                    Token::Word(res) => {
                        let ghost before = self.current_function_results@;
                        self.current_function_results.push(res.clone());
                        assert(strings_view(self.current_function_results@) =~= strings_view(
                            before,
                        ).push(res@));
                        true
                    },
                    Token::Comma => true,
                    _ => false,
                }
            },
            StateMachine::ParsingFunctionResultSemicolon => {
                match token {
                    Token::Semicolon => {
                        let mut input: Vec<FunctionParam> = Vec::new();
                        std::mem::swap(&mut input, &mut self.current_function_args);
                        let mut output: Vec<String> = Vec::new();
                        std::mem::swap(&mut output, &mut self.current_function_results);
                        let func = Function { is_async: self.is_async, input, output };
                        let name = self.current_function_name.clone();
                        self.current_i_class.insert(name, func);
                        self.is_async = false;
                        assert(params_view(self.current_function_args@) =~= seq![]);
                        assert(strings_view(self.current_function_results@) =~= seq![]);
                        self.state = StateMachine::ParsingFunctionName;
                        true
                    },
                    _ => false,
                }
            },
        }
    }

    /// Reads a token stream and returns the interface classes read so far.
    ///
    /// Whitespace tokens are skipped, `message` blocks are skipped up to their
    /// matching closing brace, and an unexpected token ends the reading; its
    /// position is kept for [`Self::unexpected_at`]. The builder keeps its
    /// state for later calls. The brace depth of `message` blocks must stay
    /// inside `i32`, which the counts of braces in `ts` bound.
    pub fn parse_token_stream(&mut self, ts: Vec<Token>) -> (r: Interface)
        requires
            old(self)@.protobuf_depth + occurrences(tokens_view(ts@), SpecToken::CurlyOpen)
                <= i32::MAX,
            old(self)@.protobuf_depth - occurrences(tokens_view(ts@), SpecToken::CurlyClose)
                >= i32::MIN,
        ensures
            final(self)@ == run(old(self)@, tokens_view(ts@)),
            r@ == final(self)@.classes,
            match final(self).stop_position() {
                Some(k) => stops_at(old(self)@, tokens_view(ts@), k as int),
                None => reads_through(old(self)@, tokens_view(ts@)),
            },
    {
        let ghost tv = tokens_view(ts@);
        let ghost b0 = self@;
        assert(tv.skip(0) =~= tv);
        assert(tv.take(0) =~= Seq::<SpecToken>::empty());
        let n = ts.len();
        let mut i: usize = 0;
        let mut stopped = false;
        while i < n && !stopped
            invariant
                n == ts@.len(),
                tv == tokens_view(ts@),
                i <= n,
                self@.protobuf_depth + occurrences(tv.skip(i as int), SpecToken::CurlyOpen) <= i32::MAX,
                self@.protobuf_depth - occurrences(tv.skip(i as int), SpecToken::CurlyClose) >= i32::MIN,
                self@ == run(b0, tv.take(i as int)),
                forall|j: int| 0 <= j < i ==> #[trigger] step(run(b0, tv.take(j)), tv[j]) is Some,
                stopped ==> i < n && step(self@, tv[i as int]) is None,
            decreases n - i + (if stopped {
                0int
            } else {
                1int
            }),
        {
            assert(tv.skip(i as int)[0] == tv[i as int]);
            assert(tv[i as int] == ts@[i as int]@);
            assert(tv.skip(i as int).drop_first() =~= tv.skip(i + 1));
            let ok = self.apply(&ts[i]);
            if ok {
                proof {
                    lemma_run_extend(b0, tv, i as int);
                }
                i = i + 1;
            } else {
                stopped = true;
            }
        }
        proof {
            lemma_run_split(b0, tv, i as int);
            if stopped {
                assert(tv.skip(i as int)[0] == tv[i as int]);
            } else {
                assert(tv.skip(n as int) =~= seq![]);
                assert(tv.take(n as int) =~= tv);
            }
        }
        if stopped {
            self.stopped_at = Some(i);
        } else {
            self.stopped_at = None;
        }
        self.classes.duplicate()
    }
}

} // verus!
