use vstd::prelude::*;

use crate::builder::{initial_builder, run, step, BuilderView, SpecClass, SpecInterface};
use crate::interface::{SpecFunction, SpecParam};
use crate::token::{spec_tokenize, word_char, SpecToken};
use crate::token_laws::{law_words_well_formed, words_well_formed};

verus! {

/// Every character of `w` is a word character (the empty sequence counts).
pub open spec fn is_word(w: Seq<char>) -> bool {
    forall|j: int| 0 <= j < w.len() ==> word_char(#[trigger] w[j])
}

/// The name and the type of a parameter are words.
pub open spec fn param_words(p: SpecParam) -> bool {
    is_word(p.name) && is_word(p.ty)
}

/// Every parameter name, parameter type and result type of `f` is a word.
pub open spec fn function_words(f: SpecFunction) -> bool {
    &&& forall|i: int| 0 <= i < f.input.len() ==> param_words(#[trigger] f.input[i])
    &&& forall|i: int| 0 <= i < f.output.len() ==> is_word(#[trigger] f.output[i])
}

/// Every function name of a class is a word, and so is everything its
/// functions name.
pub open spec fn class_words(c: SpecClass) -> bool {
    forall|k: Seq<char>| #[trigger] c.dom().contains(k) ==> is_word(k) && function_words(c[k])
}

/// Every class name of an interface is a word, and so is everything its
/// classes name.
pub open spec fn interface_words(m: SpecInterface) -> bool {
    forall|k: Seq<char>| #[trigger] m.dom().contains(k) ==> is_word(k) && class_words(m[k])
}

/// Everything a builder holds or is collecting is made of words.
pub open spec fn builder_words(b: BuilderView) -> bool {
    &&& interface_words(b.classes)
    &&& class_words(b.current_i_class)
    &&& is_word(b.current_function_name)
    &&& param_words(b.current_param)
    &&& forall|i: int|
        0 <= i < b.current_function_args.len() ==> param_words(#[trigger] b.current_function_args[i])
    &&& is_word(b.current_class)
    &&& forall|i: int|
        0 <= i < b.current_function_results.len() ==> is_word(
            #[trigger] b.current_function_results[i],
        )
}

/// A token that, when it is a word, is made of word characters.
pub open spec fn token_words(t: SpecToken) -> bool {
    t is Word ==> is_word(t->Word_0)
}

proof fn lemma_step_words(b: BuilderView, t: SpecToken)
    requires
        builder_words(b),
        token_words(t),
    ensures
        step(b, t) matches Some(n) ==> builder_words(n),
{
    if let Some(n) = step(b, t) {
        assert(is_word(Seq::<char>::empty()));
        assert(class_words(Map::<Seq<char>, SpecFunction>::empty()));
        let f = SpecFunction {
            is_async: b.is_async,
            input: b.current_function_args,
            output: b.current_function_results,
        };
        assert(function_words(f));
        assert(class_words(b.current_i_class.insert(b.current_function_name, f)));
        assert(interface_words(b.classes.insert(b.current_class, b.current_i_class)));
        if t is Word {
            let a = t->Word_0;
            let p = SpecParam { name: b.current_param.name, ty: a };
            assert(param_words(p));
            assert forall|i: int|
                0 <= i < b.current_function_args.push(p).len() implies param_words(
                #[trigger] b.current_function_args.push(p)[i],
            ) by {
                if i < b.current_function_args.len() {
                    assert(b.current_function_args.push(p)[i] == b.current_function_args[i]);
                }
            }
            assert forall|i: int|
                0 <= i < b.current_function_results.push(a).len() implies is_word(
                #[trigger] b.current_function_results.push(a)[i],
            ) by {
                if i < b.current_function_results.len() {
                    assert(b.current_function_results.push(a)[i] == b.current_function_results[i]);
                }
            }
        }
    }
}

proof fn lemma_run_words(b: BuilderView, ts: Seq<SpecToken>)
    requires
        builder_words(b),
        forall|i: int| 0 <= i < ts.len() ==> token_words(#[trigger] ts[i]),
    ensures
        builder_words(run(b, ts)),
    decreases ts.len(),
{
    if ts.len() > 0 {
        lemma_step_words(b, ts[0]);
        if let Some(next) = step(b, ts[0]) {
            let rest = ts.drop_first();
            assert forall|i: int| 0 <= i < rest.len() implies token_words(#[trigger] rest[i]) by {
                assert(rest[i] == ts[i + 1]);
            }
            lemma_run_words(next, rest);
        }
    }
}

/// Whatever the input text, every name that the parser reads from its tokens
/// (class names, function names, parameter names and types, result types)
/// consists of alphanumeric characters, `-` and `_` only; so the generated
/// code never receives other characters from the description.
pub proof fn law_parsed_names_are_words(input: Seq<char>)
    ensures
        interface_words(run(initial_builder(), spec_tokenize(input)).classes),
{
    let ts = spec_tokenize(input);
    law_words_well_formed(input);
    assert forall|i: int| 0 <= i < ts.len() implies token_words(#[trigger] ts[i]) by {
        assert(words_well_formed(ts));
    }
    assert(builder_words(initial_builder()));
    lemma_run_words(initial_builder(), ts);
}

} // verus!
