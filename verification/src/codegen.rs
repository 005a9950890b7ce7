use vstd::prelude::*;

use crate::interface::{params_view, strings_view, Function, FunctionParam, SpecFunction, SpecParam};

verus! {

/// `parts` written one after the other with `sep` between each two.
pub open spec fn join(parts: Seq<Seq<char>>, sep: Seq<char>) -> Seq<char>
    decreases parts.len(),
{
    if parts.len() == 0 {
        seq![]
    } else if parts.len() == 1 {
        parts[0]
    } else {
        join(parts.drop_last(), sep) + sep + parts.last()
    }
}

proof fn lemma_join_take(parts: Seq<Seq<char>>, sep: Seq<char>, i: int)
    requires
        0 <= i < parts.len(),
    ensures
        join(parts.take(i + 1), sep) == join(parts.take(i), sep) + (if i == 0 {
            Seq::<char>::empty()
        } else {
            sep
        }) + parts[i],
{
    let t = parts.take(i + 1);
    assert(t.drop_last() =~= parts.take(i));
    if i == 0 {
        assert(join(parts.take(0), sep) =~= Seq::<char>::empty());
        assert(join(t, sep) == parts[0]);
        assert(Seq::<char>::empty() + Seq::<char>::empty() + parts[0] =~= parts[0]);
    }
}

/// The separator between the items of a parameter or result list.
pub open spec fn list_sep() -> Seq<char> {
    ", "@
}

/// A parameter as a trait method declares it: `name: type`.
pub open spec fn spec_param_text(p: SpecParam) -> Seq<char> {
    p.name + ": "@ + p.ty
}

/// A parameter as an exported bridge function takes it: by its name, as a
/// `MessageFatPointer`.
pub open spec fn spec_bridge_param_text(p: SpecParam) -> Seq<char> {
    p.name + ": MessageFatPointer"@
}

/// The text of a parameter in either form.
pub open spec fn param_text(p: SpecParam, bridge: bool) -> Seq<char> {
    if bridge {
        spec_bridge_param_text(p)
    } else {
        spec_param_text(p)
    }
}

/// The bridge function that exports function `name` of class `class_name`
/// to foreign callers.
pub open spec fn spec_codegen_rs_bridge(f: SpecFunction, class_name: Seq<char>, name: Seq<char>) -> Seq<
    char,
> {
    "pub extern \"C\" fn _internal_"@ + class_name + "_"@ + name + "("@ + join(
        f.input.map_values(|p: SpecParam| spec_bridge_param_text(p)),
        list_sep(),
    ) + ") -> ("@ + join(f.output, list_sep()) + ") {}"@
}

/// The trait method that declares function `name`.
pub open spec fn spec_codegen_rs_trait(f: SpecFunction, name: Seq<char>) -> Seq<char> {
    (if f.is_async {
        "async "@
    } else {
        ""@
    }) + "fn "@ + name + "("@ + join(f.input.map_values(|p: SpecParam| spec_param_text(p)), list_sep())
        + ") -> ("@ + join(f.output, list_sep()) + ") {}"@
}

/// Appends the parameters in the given form, separated by `", "`.
fn push_params(out: &mut String, ps: &Vec<FunctionParam>, bridge: bool)
    ensures
        final(out)@ == old(out)@ + join(
            params_view(ps@).map_values(|p: SpecParam| param_text(p, bridge)),
            list_sep(),
        ),
{
    let ghost parts = params_view(ps@).map_values(|p: SpecParam| param_text(p, bridge));
    assert(join(parts.take(0), list_sep()) =~= Seq::<char>::empty());
    assert(out@ =~= old(out)@ + join(parts.take(0), list_sep()));
    for i in 0..ps.len()
        invariant
            parts == params_view(ps@).map_values(|p: SpecParam| param_text(p, bridge)),
            out@ == old(out)@ + join(parts.take(i as int), list_sep()),
    {
        let ghost before = out@;
        proof {
            lemma_join_take(parts, list_sep(), i as int);
        }
        if i > 0 {
            out.append(", ");
        }
        out.append(ps[i].param_name.as_str());
        if bridge {
            out.append(": MessageFatPointer");
        } else {
            out.append(": ");
            out.append(ps[i].param_type.as_str());
        }
        assert(out@ =~= old(out)@ + join(parts.take(i + 1), list_sep()));
    }
    assert(parts.take(ps@.len() as int) =~= parts);
}

/// Appends the strings, separated by `", "`.
fn push_strings(out: &mut String, ss: &Vec<String>)
    ensures
        final(out)@ == old(out)@ + join(strings_view(ss@), list_sep()),
{
    let ghost parts = strings_view(ss@);
    assert(join(parts.take(0), list_sep()) =~= Seq::<char>::empty());
    assert(out@ =~= old(out)@ + join(parts.take(0), list_sep()));
    for i in 0..ss.len()
        invariant
            parts == strings_view(ss@),
            out@ == old(out)@ + join(parts.take(i as int), list_sep()),
    {
        proof {
            lemma_join_take(parts, list_sep(), i as int);
        }
        if i > 0 {
            out.append(", ");
        }
        out.append(ss[i].as_str());
        assert(out@ =~= old(out)@ + join(parts.take(i + 1), list_sep()));
    }
    assert(parts.take(ss@.len() as int) =~= parts);
}

impl FunctionParam {
    /// The parameter as a declaration writes it: `name: type`.
    pub fn to_string(&self) -> (s: String)
        ensures
            s@ == spec_param_text(self@),
    {
        let mut s = self.param_name.clone();
        s.append(": ");
        s.append(self.param_type.as_str());
        s
    }
}

impl Function {
    /// The exported bridge function for function `name` of class
    /// `class_name`: every parameter is passed as a `MessageFatPointer`.
    pub fn codegen_rs_bridge(self, class_name: &str, name: &str) -> (s: String)
        ensures
            s@ == spec_codegen_rs_bridge(self@, class_name@, name@),
    {
        let mut s = String::from_str("pub extern \"C\" fn _internal_");
        s.append(class_name);
        s.append("_");
        s.append(name);
        s.append("(");
        push_params(&mut s, &self.input, true);
        s.append(") -> (");
        push_strings(&mut s, &self.output);
        s.append(") {}");
        assert(params_view(self.input@).map_values(|p: SpecParam| param_text(p, true))
            =~= self@.input.map_values(|p: SpecParam| spec_bridge_param_text(p)));
        s
    }

    /// The trait method declaring function `name`, marked `async` when the
    /// function is.
    pub fn codegen_rs_trait(&self, name: &str) -> (s: String)
        ensures
            s@ == spec_codegen_rs_trait(self@, name@),
    {
        let mut s = if self.is_async {
            String::from_str("async ")
        } else {
            proof {
                reveal_strlit("");
            }
            String::new()
        };
        s.append("fn ");
        s.append(name);
        s.append("(");
        push_params(&mut s, &self.input, false);
        s.append(") -> (");
        push_strings(&mut s, &self.output);
        s.append(") {}");
        assert(params_view(self.input@).map_values(|p: SpecParam| param_text(p, false))
            =~= self@.input.map_values(|p: SpecParam| spec_param_text(p)));
        s
    }
}

/// `f` as the bridge exports it: not async, and every parameter passed as a
/// `MessageFatPointer`.
pub open spec fn exported_form(f: SpecFunction) -> SpecFunction {
    SpecFunction {
        is_async: false,
        input: f.input.map_values(|p: SpecParam| SpecParam { name: p.name, ty: "MessageFatPointer"@ }),
        output: f.output,
    }
}

/// The bridge of function `name` of class `class_name` is the trait
/// declaration of its exported form, named `_internal_<class>_<name>` and
/// marked `pub extern "C"`: the same parameter names in the same order, each
/// typed `MessageFatPointer`, and the same result types, whether the function
/// is async or not.
pub proof fn law_bridge_is_exported_declaration(f: SpecFunction, class_name: Seq<char>, name: Seq<char>)
    ensures
        spec_codegen_rs_bridge(f, class_name, name) == "pub extern \"C\" "@ + spec_codegen_rs_trait(
            exported_form(f),
            "_internal_"@ + class_name + "_"@ + name,
        ),
{
    reveal_strlit("pub extern \"C\" fn _internal_");
    reveal_strlit("pub extern \"C\" ");
    reveal_strlit("fn ");
    reveal_strlit("_internal_");
    reveal_strlit("");
    reveal_strlit(": ");
    reveal_strlit("MessageFatPointer");
    reveal_strlit(": MessageFatPointer");
    let e = exported_form(f);
    assert(": "@ + "MessageFatPointer"@ =~= ": MessageFatPointer"@);
    let a = f.input.map_values(|p: SpecParam| spec_bridge_param_text(p));
    let b = e.input.map_values(|p: SpecParam| spec_param_text(p));
    assert forall|i: int| 0 <= i < a.len() implies a[i] == b[i] by {
        let p = f.input[i];
        assert(p.name + ": "@ + "MessageFatPointer"@ =~= p.name + ": MessageFatPointer"@);
    }
    assert(a =~= b);
    let params = join(f.input.map_values(|p: SpecParam| spec_bridge_param_text(p)), list_sep());
    let rest = ") -> ("@ + join(f.output, list_sep()) + ") {}"@;
    assert(spec_codegen_rs_bridge(f, class_name, name) =~= "pub extern \"C\" fn _internal_"@
        + class_name + "_"@ + name + "("@ + params + rest);
    assert(spec_codegen_rs_trait(e, "_internal_"@ + class_name + "_"@ + name) =~= ""@ + "fn "@ + (
    "_internal_"@ + class_name + "_"@ + name) + "("@ + params + rest);
    assert("pub extern \"C\" fn _internal_"@ =~= "pub extern \"C\" "@ + ""@ + "fn "@ + "_internal_"@);
}

/// The bridge does not depend on whether the function is async.
pub proof fn law_bridge_ignores_async(f: SpecFunction, class_name: Seq<char>, name: Seq<char>)
    ensures
        spec_codegen_rs_bridge(SpecFunction { is_async: true, ..f }, class_name, name)
            == spec_codegen_rs_bridge(SpecFunction { is_async: false, ..f }, class_name, name),
{
}

/// The declaration of an async function is the declaration of the same
/// function without `async`, preceded by `async `: parameters and results are
/// written the same way in both.
pub proof fn law_trait_async_prefix(f: SpecFunction, name: Seq<char>)
    ensures
        spec_codegen_rs_trait(SpecFunction { is_async: true, ..f }, name) == "async "@
            + spec_codegen_rs_trait(SpecFunction { is_async: false, ..f }, name),
{
    reveal_strlit("");
    let params = join(f.input.map_values(|p: SpecParam| spec_param_text(p)), list_sep());
    let rest = ") -> ("@ + join(f.output, list_sep()) + ") {}"@;
    assert(spec_codegen_rs_trait(SpecFunction { is_async: true, ..f }, name) =~= "async "@ + "fn "@
        + name + "("@ + params + rest);
    assert(spec_codegen_rs_trait(SpecFunction { is_async: false, ..f }, name) =~= "fn "@ + name
        + "("@ + params + rest);
}

/// Each parameter of a declaration is written as [`FunctionParam::to_string`]
/// writes it, `name: type`, with its declared type: a declaration with no
/// parameters, and the list of the parameters' texts, make up the declaration
/// with parameters.
pub proof fn law_trait_params_as_written(f: SpecFunction, name: Seq<char>)
    ensures
        spec_codegen_rs_trait(f, name) == ({
            let bare = spec_codegen_rs_trait(SpecFunction { input: seq![], ..f }, name);
            let head = (if f.is_async {
                "async "@
            } else {
                ""@
            }) + "fn "@ + name + "("@;
            head + join(f.input.map_values(|p: SpecParam| p.name + ": "@ + p.ty), ", "@) + bare.skip(
                head.len() as int,
            )
        }),
{
    let head = (if f.is_async {
        "async "@
    } else {
        ""@
    }) + "fn "@ + name + "("@;
    let rest = ") -> ("@ + join(f.output, list_sep()) + ") {}"@;
    let e: Seq<Seq<char>> = seq![];
    assert(SpecFunction { input: seq![], ..f }.input.map_values(|p: SpecParam| spec_param_text(p)) =~= e);
    assert(join(e, list_sep()) =~= Seq::<char>::empty());
    let bare = spec_codegen_rs_trait(SpecFunction { input: seq![], ..f }, name);
    assert(bare =~= head + rest);
    assert(bare.skip(head.len() as int) =~= rest);
    assert(f.input.map_values(|p: SpecParam| spec_param_text(p)) =~= f.input.map_values(
        |p: SpecParam| p.name + ": "@ + p.ty,
    ));
    assert(spec_codegen_rs_trait(f, name) =~= head + join(
        f.input.map_values(|p: SpecParam| p.name + ": "@ + p.ty),
        ", "@,
    ) + rest);
}

} // verus!
