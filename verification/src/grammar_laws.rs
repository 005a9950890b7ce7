use vstd::prelude::*;

use crate::builder::{initial_builder, run, step, BuilderView, SpecClass, SpecInterface, StateMachine};
use crate::interface::{SpecFunction, SpecParam};
use crate::token::SpecToken;

verus! {

/// A function declaration `name(p1: T1, ...) [async] -> (R1, ...);`.
pub struct Declaration {
    pub name: Seq<char>,
    pub params: Seq<SpecParam>,
    pub is_async: bool,
    pub results: Seq<Seq<char>>,
}

/// The tokens of one parameter: `name : type`.
pub open spec fn param_tokens(p: SpecParam) -> Seq<SpecToken> {
    seq![SpecToken::Word(p.name), SpecToken::Colon, SpecToken::Word(p.ty)]
}

/// The tokens of parameters that follow a first one, each after a comma.
pub open spec fn later_params_tokens(ps: Seq<SpecParam>) -> Seq<SpecToken>
    decreases ps.len(),
{
    if ps.len() == 0 {
        seq![]
    } else {
        seq![SpecToken::Comma] + param_tokens(ps[0]) + later_params_tokens(ps.drop_first())
    }
}

/// The tokens of a parameter list, separated by commas.
pub open spec fn params_tokens(ps: Seq<SpecParam>) -> Seq<SpecToken> {
    if ps.len() == 0 {
        seq![]
    } else {
        param_tokens(ps[0]) + later_params_tokens(ps.drop_first())
    }
}

/// The tokens of result types that follow a first one, each after a comma.
pub open spec fn later_results_tokens(rs: Seq<Seq<char>>) -> Seq<SpecToken>
    decreases rs.len(),
{
    if rs.len() == 0 {
        seq![]
    } else {
        seq![SpecToken::Comma, SpecToken::Word(rs[0])] + later_results_tokens(rs.drop_first())
    }
}

/// The tokens of a result list, separated by commas.
pub open spec fn results_tokens(rs: Seq<Seq<char>>) -> Seq<SpecToken> {
    if rs.len() == 0 {
        seq![]
    } else {
        seq![SpecToken::Word(rs[0])] + later_results_tokens(rs.drop_first())
    }
}

/// The tokens of a function declaration.
pub open spec fn declaration_tokens(d: Declaration) -> Seq<SpecToken> {
    seq![SpecToken::Word(d.name), SpecToken::ParenOpen] + params_tokens(d.params) + seq![
        SpecToken::ParenClose,
    ] + (if d.is_async {
        seq![SpecToken::Async]
    } else {
        seq![]
    }) + seq![SpecToken::Arrow, SpecToken::ParenOpen] + results_tokens(d.results) + seq![
        SpecToken::ParenClose,
        SpecToken::Semicolon,
    ]
}

/// The function that a declaration declares.
pub open spec fn declared_function(d: Declaration) -> SpecFunction {
    SpecFunction { is_async: d.is_async, input: d.params, output: d.results }
}

/// The tokens of declarations one after the other.
pub open spec fn declarations_tokens(ds: Seq<Declaration>) -> Seq<SpecToken>
    decreases ds.len(),
{
    if ds.len() == 0 {
        seq![]
    } else {
        declaration_tokens(ds[0]) + declarations_tokens(ds.drop_first())
    }
}

/// The functions of `m` after the declarations `ds`, a later declaration of a
/// name replacing an earlier one.
pub open spec fn class_after(m: SpecClass, ds: Seq<Declaration>) -> SpecClass
    decreases ds.len(),
{
    if ds.len() == 0 {
        m
    } else {
        class_after(m.insert(ds[0].name, declared_function(ds[0])), ds.drop_first())
    }
}

/// The class that the declarations `ds` declare.
pub open spec fn declared_class(ds: Seq<Declaration>) -> SpecClass {
    class_after(Map::empty(), ds)
}

/// The tokens of `class name { declarations }`.
pub open spec fn class_tokens(name: Seq<char>, ds: Seq<Declaration>) -> Seq<SpecToken> {
    seq![SpecToken::Class, SpecToken::Word(name), SpecToken::CurlyOpen] + declarations_tokens(ds)
        + seq![SpecToken::CurlyClose]
}

/// The tokens of classes one after the other.
pub open spec fn interface_tokens(cs: Seq<(Seq<char>, Seq<Declaration>)>) -> Seq<SpecToken>
    decreases cs.len(),
{
    if cs.len() == 0 {
        seq![]
    } else {
        class_tokens(cs[0].0, cs[0].1) + interface_tokens(cs.drop_first())
    }
}

/// The classes of `m` after the class declarations `cs`, a later class of a
/// name replacing an earlier one.
pub open spec fn interface_after(m: SpecInterface, cs: Seq<(Seq<char>, Seq<Declaration>)>) -> SpecInterface
    decreases cs.len(),
{
    if cs.len() == 0 {
        m
    } else {
        interface_after(m.insert(cs[0].0, declared_class(cs[0].1)), cs.drop_first())
    }
}

/// Nothing in `ts` stops the parser started in `b`.
pub open spec fn reads_all(b: BuilderView, ts: Seq<SpecToken>) -> bool
    decreases ts.len(),
{
    ts.len() == 0 || (step(b, ts[0]) is Some && reads_all(step(b, ts[0])->0, ts.drop_first()))
}

/// Reading `ts` from `b` reads every token and ends in `x`.
pub open spec fn reads_to(b: BuilderView, ts: Seq<SpecToken>, x: BuilderView) -> bool {
    reads_all(b, ts) && run(b, ts) == x
}

proof fn lemma_run_concat(b: BuilderView, a: Seq<SpecToken>, c: Seq<SpecToken>)
    requires
        reads_all(b, a),
    ensures
        run(b, a + c) == run(run(b, a), c),
        reads_all(run(b, a), c) ==> reads_all(b, a + c),
    decreases a.len(),
{
    if a.len() == 0 {
        assert(a + c =~= c);
    } else {
        let n = step(b, a[0])->0;
        assert((a + c)[0] == a[0]);
        assert((a + c).drop_first() =~= a.drop_first() + c);
        lemma_run_concat(n, a.drop_first(), c);
    }
}

proof fn lemma_reads_concat(
    b: BuilderView,
    a: Seq<SpecToken>,
    c: Seq<SpecToken>,
    x: BuilderView,
    y: BuilderView,
)
    requires
        reads_to(b, a, x),
        reads_to(x, c, y),
    ensures
        reads_to(b, a + c, y),
{
    lemma_run_concat(b, a, c);
}

proof fn lemma_reads_nil(b: BuilderView)
    ensures
        reads_to(b, seq![], b),
{
}

proof fn lemma_reads_one(b: BuilderView, t: SpecToken)
    requires
        step(b, t) is Some,
    ensures
        reads_to(b, seq![t], step(b, t)->0),
{
    let n = step(b, t)->0;
    assert(seq![t][0] == t);
    assert(seq![t].drop_first() =~= Seq::<SpecToken>::empty());
    assert(run(n, Seq::<SpecToken>::empty()) == n);
    assert(reads_all(n, Seq::<SpecToken>::empty()));
}

proof fn lemma_reads_two(b: BuilderView, t1: SpecToken, t2: SpecToken)
    requires
        step(b, t1) is Some,
        step(step(b, t1)->0, t2) is Some,
    ensures
        reads_to(b, seq![t1, t2], step(step(b, t1)->0, t2)->0),
{
    lemma_reads_one(b, t1);
    lemma_reads_one(step(b, t1)->0, t2);
    lemma_reads_concat(b, seq![t1], seq![t2], step(b, t1)->0, step(step(b, t1)->0, t2)->0);
    assert(seq![t1] + seq![t2] =~= seq![t1, t2]);
}

proof fn lemma_reads_three(b: BuilderView, t1: SpecToken, t2: SpecToken, t3: SpecToken)
    requires
        step(b, t1) is Some,
        step(step(b, t1)->0, t2) is Some,
        step(step(step(b, t1)->0, t2)->0, t3) is Some,
    ensures
        reads_to(b, seq![t1, t2, t3], step(step(step(b, t1)->0, t2)->0, t3)->0),
{
    let x2 = step(step(b, t1)->0, t2)->0;
    lemma_reads_two(b, t1, t2);
    lemma_reads_one(x2, t3);
    lemma_reads_concat(b, seq![t1, t2], seq![t3], x2, step(x2, t3)->0);
    assert(seq![t1, t2] + seq![t3] =~= seq![t1, t2, t3]);
}

/// The builder after the parameters `ps`, read while collecting parameters.
spec fn after_params(b: BuilderView, ps: Seq<SpecParam>) -> BuilderView {
    if ps.len() == 0 {
        b
    } else {
        BuilderView {
            current_param: ps.last(),
            current_function_args: b.current_function_args + ps,
            ..b
        }
    }
}

proof fn lemma_param(b: BuilderView, p: SpecParam)
    requires
        b.state == StateMachine::ParsingFunctionArgsWord,
    ensures
        reads_to(
            b,
            param_tokens(p),
            BuilderView { current_param: p, current_function_args: b.current_function_args.push(p), ..b },
        ),
{
    lemma_reads_three(b, SpecToken::Word(p.name), SpecToken::Colon, SpecToken::Word(p.ty));
}

proof fn lemma_params_step(b: BuilderView, ps: Seq<SpecParam>)
    requires
        ps.len() > 0,
    ensures
        after_params(
            BuilderView {
                current_param: ps[0],
                current_function_args: b.current_function_args.push(ps[0]),
                ..b
            },
            ps.drop_first(),
        ) == after_params(b, ps),
{
    let b1 = BuilderView {
        current_param: ps[0],
        current_function_args: b.current_function_args.push(ps[0]),
        ..b
    };
    let rest = ps.drop_first();
    if rest.len() == 0 {
        assert(b.current_function_args.push(ps[0]) =~= b.current_function_args + ps);
        assert(ps.last() == ps[0]);
    } else {
        assert(b1.current_function_args + rest =~= b.current_function_args + ps);
        assert(rest.last() == ps.last());
    }
}

proof fn lemma_later_params(b: BuilderView, ps: Seq<SpecParam>)
    requires
        b.state == StateMachine::ParsingFunctionArgsWord,
    ensures
        reads_to(b, later_params_tokens(ps), after_params(b, ps)),
    decreases ps.len(),
{
    if ps.len() == 0 {
        lemma_reads_nil(b);
    } else {
        let b1 = BuilderView {
            current_param: ps[0],
            current_function_args: b.current_function_args.push(ps[0]),
            ..b
        };
        lemma_reads_one(b, SpecToken::Comma);
        lemma_param(b, ps[0]);
        lemma_reads_concat(b, seq![SpecToken::Comma], param_tokens(ps[0]), b, b1);
        lemma_later_params(b1, ps.drop_first());
        lemma_params_step(b, ps);
        lemma_reads_concat(
            b,
            seq![SpecToken::Comma] + param_tokens(ps[0]),
            later_params_tokens(ps.drop_first()),
            b1,
            after_params(b, ps),
        );
    }
}

proof fn lemma_params(b: BuilderView, ps: Seq<SpecParam>)
    requires
        b.state == StateMachine::ParsingFunctionArgsWord,
    ensures
        reads_to(b, params_tokens(ps), after_params(b, ps)),
{
    if ps.len() == 0 {
        lemma_reads_nil(b);
    } else {
        let b1 = BuilderView {
            current_param: ps[0],
            current_function_args: b.current_function_args.push(ps[0]),
            ..b
        };
        lemma_param(b, ps[0]);
        lemma_later_params(b1, ps.drop_first());
        lemma_params_step(b, ps);
        lemma_reads_concat(b, param_tokens(ps[0]), later_params_tokens(ps.drop_first()), b1, after_params(b, ps));
    }
}

/// The builder after the result types `rs`, read while collecting results.
spec fn after_results(b: BuilderView, rs: Seq<Seq<char>>) -> BuilderView {
    BuilderView { current_function_results: b.current_function_results + rs, ..b }
}

proof fn lemma_later_results(b: BuilderView, rs: Seq<Seq<char>>)
    requires
        b.state == StateMachine::ParsingFunctionResultWord,
    ensures
        reads_to(b, later_results_tokens(rs), after_results(b, rs)),
    decreases rs.len(),
{
    if rs.len() == 0 {
        assert(b.current_function_results + rs =~= b.current_function_results);
        lemma_reads_nil(b);
    } else {
        let b1 = BuilderView { current_function_results: b.current_function_results.push(rs[0]), ..b };
        lemma_reads_two(b, SpecToken::Comma, SpecToken::Word(rs[0]));
        lemma_later_results(b1, rs.drop_first());
        assert(b1.current_function_results + rs.drop_first() =~= b.current_function_results + rs);
        lemma_reads_concat(
            b,
            seq![SpecToken::Comma, SpecToken::Word(rs[0])],
            later_results_tokens(rs.drop_first()),
            b1,
            after_results(b, rs),
        );
    }
}

proof fn lemma_results(b: BuilderView, rs: Seq<Seq<char>>)
    requires
        b.state == StateMachine::ParsingFunctionResultWord,
    ensures
        reads_to(b, results_tokens(rs), after_results(b, rs)),
{
    if rs.len() == 0 {
        assert(b.current_function_results + rs =~= b.current_function_results);
        lemma_reads_nil(b);
    } else {
        let b1 = BuilderView { current_function_results: b.current_function_results.push(rs[0]), ..b };
        lemma_reads_one(b, SpecToken::Word(rs[0]));
        lemma_later_results(b1, rs.drop_first());
        assert(b1.current_function_results + rs.drop_first() =~= b.current_function_results + rs);
        lemma_reads_concat(
            b,
            seq![SpecToken::Word(rs[0])],
            later_results_tokens(rs.drop_first()),
            b1,
            after_results(b, rs),
        );
    }
}

/// A builder between function declarations of a class body, with nothing of
/// a function collected.
pub open spec fn between_functions(b: BuilderView) -> bool {
    &&& b.state == StateMachine::ParsingFunctionName
    &&& !b.is_async
    &&& b.current_function_args == Seq::<SpecParam>::empty()
    &&& b.current_function_results == Seq::<Seq<char>>::empty()
}

/// The builder after reading declaration `d` between functions.
spec fn after_declaration(b: BuilderView, d: Declaration) -> BuilderView {
    BuilderView {
        current_i_class: b.current_i_class.insert(d.name, declared_function(d)),
        current_function_name: d.name,
        current_param: after_params(b, d.params).current_param,
        ..b
    }
}

proof fn lemma_declaration(b: BuilderView, d: Declaration)
    requires
        between_functions(b),
    ensures
        reads_to(b, declaration_tokens(d), after_declaration(b, d)),
{
    let b2 = BuilderView {
        current_function_name: d.name,
        state: StateMachine::ParsingFunctionArgsWord,
        ..b
    };
    lemma_reads_two(b, SpecToken::Word(d.name), SpecToken::ParenOpen);
    let b3 = after_params(b2, d.params);
    lemma_params(b2, d.params);
    assert(b3.current_function_args =~= d.params);
    lemma_reads_concat(b, seq![SpecToken::Word(d.name), SpecToken::ParenOpen], params_tokens(d.params), b2, b3);
    let t1 = seq![SpecToken::Word(d.name), SpecToken::ParenOpen] + params_tokens(d.params);
    let b4 = BuilderView { state: StateMachine::ParsingAsync, ..b3 };
    lemma_reads_one(b3, SpecToken::ParenClose);
    lemma_reads_concat(b, t1, seq![SpecToken::ParenClose], b3, b4);
    let t2 = t1 + seq![SpecToken::ParenClose];
    let a: Seq<SpecToken> = if d.is_async {
        seq![SpecToken::Async]
    } else {
        seq![]
    };
    let b5 = if d.is_async {
        BuilderView { is_async: true, ..b4 }
    } else {
        b4
    };
    if d.is_async {
        lemma_reads_one(b4, SpecToken::Async);
    } else {
        lemma_reads_nil(b4);
    }
    lemma_reads_concat(b, t2, a, b4, b5);
    let t3 = t2 + a;
    let b7 = BuilderView { state: StateMachine::ParsingFunctionResultWord, ..b5 };
    lemma_reads_two(b5, SpecToken::Arrow, SpecToken::ParenOpen);
    lemma_reads_concat(b, t3, seq![SpecToken::Arrow, SpecToken::ParenOpen], b5, b7);
    let t4 = t3 + seq![SpecToken::Arrow, SpecToken::ParenOpen];
    let b8 = after_results(b7, d.results);
    lemma_results(b7, d.results);
    assert(b8.current_function_results =~= d.results);
    lemma_reads_concat(b, t4, results_tokens(d.results), b7, b8);
    let t5 = t4 + results_tokens(d.results);
    let b9 = BuilderView { state: StateMachine::ParsingFunctionResultSemicolon, ..b8 };
    lemma_reads_two(b8, SpecToken::ParenClose, SpecToken::Semicolon);
    let b10 = step(b9, SpecToken::Semicolon)->0;
    assert(b10.current_function_args =~= Seq::<SpecParam>::empty());
    assert(b10.current_function_results =~= Seq::<Seq<char>>::empty());
    assert(b10 == after_declaration(b, d));
    lemma_reads_concat(b, t5, seq![SpecToken::ParenClose, SpecToken::Semicolon], b8, b10);
    assert(t5 + seq![SpecToken::ParenClose, SpecToken::Semicolon] =~= declaration_tokens(d));
}

/// Reading a function declaration in a class body adds the function it
/// declares under its name, with exactly its parameters, its result types,
/// and `async` exactly when the declaration says `async`; afterwards the
/// parser is again between functions, with nothing collected and not async,
/// so nothing of this declaration carries over to the next one. The classes
/// already read are unchanged.
pub proof fn law_function_declaration(b: BuilderView, d: Declaration)
    requires
        between_functions(b),
    ensures
        reads_all(b, declaration_tokens(d)),
        between_functions(run(b, declaration_tokens(d))),
        run(b, declaration_tokens(d)).current_i_class == b.current_i_class.insert(
            d.name,
            declared_function(d),
        ),
        run(b, declaration_tokens(d)).classes == b.classes,
        run(b, declaration_tokens(d)).current_class == b.current_class,
        run(b, declaration_tokens(d)).protobuf_depth == b.protobuf_depth,
{
    lemma_declaration(b, d);
}

/// The builder after reading the declarations `ds` between functions.
spec fn after_declarations(b: BuilderView, ds: Seq<Declaration>) -> BuilderView
    decreases ds.len(),
{
    if ds.len() == 0 {
        b
    } else {
        after_declarations(after_declaration(b, ds[0]), ds.drop_first())
    }
}

proof fn lemma_declarations(b: BuilderView, ds: Seq<Declaration>)
    requires
        between_functions(b),
    ensures
        reads_to(b, declarations_tokens(ds), after_declarations(b, ds)),
        between_functions(after_declarations(b, ds)),
        after_declarations(b, ds).current_i_class == class_after(b.current_i_class, ds),
        after_declarations(b, ds).classes == b.classes,
        after_declarations(b, ds).current_class == b.current_class,
        after_declarations(b, ds).protobuf_depth == b.protobuf_depth,
    decreases ds.len(),
{
    if ds.len() == 0 {
        lemma_reads_nil(b);
    } else {
        let b1 = after_declaration(b, ds[0]);
        lemma_declaration(b, ds[0]);
        lemma_declarations(b1, ds.drop_first());
        lemma_reads_concat(
            b,
            declaration_tokens(ds[0]),
            declarations_tokens(ds.drop_first()),
            b1,
            after_declarations(b, ds),
        );
    }
}

/// A builder outside any class or `message` block, whose class being read,
/// if it has functions, is already filed under its name.
pub open spec fn between_classes(b: BuilderView) -> bool {
    &&& b.state == StateMachine::State0
    &&& !b.is_async
    &&& b.current_function_args == Seq::<SpecParam>::empty()
    &&& b.current_function_results == Seq::<Seq<char>>::empty()
    &&& b.current_i_class == Map::<Seq<char>, SpecFunction>::empty() || (b.classes.dom().contains(
        b.current_class,
    ) && b.classes[b.current_class] == b.current_i_class)
}

/// Reading `class name { declarations }` between classes files under `name`
/// exactly the class its declarations declare, keeps every other class, and
/// leaves the parser between classes again.
pub proof fn law_class_declaration(b: BuilderView, name: Seq<char>, ds: Seq<Declaration>)
    requires
        between_classes(b),
    ensures
        reads_all(b, class_tokens(name, ds)),
        between_classes(run(b, class_tokens(name, ds))),
        run(b, class_tokens(name, ds)).classes == b.classes.insert(name, declared_class(ds)),
        run(b, class_tokens(name, ds)).protobuf_depth == b.protobuf_depth,
{
    let c1 = step(b, SpecToken::Class)->0;
    if b.current_i_class != Map::<Seq<char>, SpecFunction>::empty() {
        assert(b.classes.insert(b.current_class, b.current_i_class) =~= b.classes);
    }
    assert(c1.classes == b.classes);
    assert(c1.current_i_class == Map::<Seq<char>, SpecFunction>::empty());
    let c3 = step(step(c1, SpecToken::Word(name))->0, SpecToken::CurlyOpen)->0;
    lemma_reads_three(b, SpecToken::Class, SpecToken::Word(name), SpecToken::CurlyOpen);
    assert(between_functions(c3));
    let c4 = after_declarations(c3, ds);
    lemma_declarations(c3, ds);
    lemma_reads_concat(
        b,
        seq![SpecToken::Class, SpecToken::Word(name), SpecToken::CurlyOpen],
        declarations_tokens(ds),
        c3,
        c4,
    );
    let c5 = step(c4, SpecToken::CurlyClose)->0;
    lemma_reads_one(c4, SpecToken::CurlyClose);
    lemma_reads_concat(
        b,
        seq![SpecToken::Class, SpecToken::Word(name), SpecToken::CurlyOpen] + declarations_tokens(ds),
        seq![SpecToken::CurlyClose],
        c4,
        c5,
    );
    assert(c5.classes == b.classes.insert(name, declared_class(ds)));
    assert(c5.current_class == name);
    assert(c5.current_i_class == declared_class(ds));
}

proof fn lemma_interface(b: BuilderView, cs: Seq<(Seq<char>, Seq<Declaration>)>)
    requires
        between_classes(b),
    ensures
        reads_all(b, interface_tokens(cs)),
        run(b, interface_tokens(cs)).classes == interface_after(b.classes, cs),
    decreases cs.len(),
{
    if cs.len() == 0 {
        lemma_reads_nil(b);
    } else {
        let t = class_tokens(cs[0].0, cs[0].1);
        law_class_declaration(b, cs[0].0, cs[0].1);
        let b1 = run(b, t);
        lemma_interface(b1, cs.drop_first());
        lemma_run_concat(b, t, interface_tokens(cs.drop_first()));
    }
}

/// A new builder reading a sequence of class declarations reads all of them
/// and ends with exactly the classes they declare: each class under its
/// name, with exactly the functions of its body, each with its own
/// parameters, results and `async` mark.
pub proof fn law_interface(cs: Seq<(Seq<char>, Seq<Declaration>)>)
    ensures
        reads_all(initial_builder(), interface_tokens(cs)),
        run(initial_builder(), interface_tokens(cs)).classes == interface_after(Map::empty(), cs),
{
    lemma_interface(initial_builder(), cs);
}

} // verus!
