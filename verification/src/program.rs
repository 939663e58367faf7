//! The compilation of definitions and of whole programs.

use vstd::prelude::*;
use vstd::string::*;
use crate::codegen::{emit, emit_all, label};
use crate::compiler::{agrees, compile_to_instrs, STACK_INDEX_LIMIT};
use crate::env::{
    env_entries, env_new, env_update, name_members, names_contains, names_insert, names_new,
};
use crate::error::{CompileError, CompileErrorView};
use crate::layout::{
    compile_definition, compile_definitions, compile_program, def_name, def_weight, defined_before,
    defs_weight, has_duplicate, param_env, program_fits, weight,
};
use crate::printer::{instrs_to_str, listing};
use crate::types::{
    code_of, defs_of, names_of, Definition, DefinitionView, Instr, InstrView, Program, Val,
};

verus! {

/// Adding the next definition to a prefix adds its weight, and no prefix
/// weighs more than a longer one.
pub proof fn lemma_defs_weight_step(defs: Seq<DefinitionView>, i: int, n: int)
    requires
        0 <= i < n <= defs.len(),
    ensures
        defs_weight(defs, i + 1) == defs_weight(defs, i) + def_weight(defs[i]),
        defs_weight(defs, i + 1) <= defs_weight(defs, n),
    decreases n - i,
{
    if i + 1 < n {
        lemma_defs_weight_step(defs, i, n - 1);
    }
}

/// A rejection among the first `n` definitions rejects every longer prefix
/// in the same way.
pub proof fn lemma_definitions_reject(
    defs: Seq<DefinitionView>,
    n: int,
    m: int,
    l: int,
    funcs: Set<Seq<char>>,
)
    requires
        0 <= n <= m <= defs.len(),
        compile_definitions(defs, n, l, funcs) is Err,
    ensures
        compile_definitions(defs, m, l, funcs) == compile_definitions(defs, n, l, funcs),
    decreases m - n,
{
    if n < m {
        lemma_definitions_reject(defs, n, m - 1, l, funcs);
    }
}

/// Whether one of the first `n` names equals `name`.
fn named_before(names: &Vec<String>, n: usize, name: &String) -> (found: bool)
    requires
        n <= names.len(),
    ensures
        found == exists|j: int| 0 <= j < n && (#[trigger] names[j])@ == name@,
{
    let mut j: usize = 0;
    while j < n
        invariant
            j <= n <= names.len(),
            forall|k: int| 0 <= k < j ==> (#[trigger] names[k])@ != name@,
        decreases n - j,
    {
        if names[j] == *name {
            return true;
        }
        j = j + 1;
    }
    false
}

/// Whether a name stands at two places of `names`.
pub fn has_repeat(names: &Vec<String>) -> (found: bool)
    ensures
        found == has_duplicate(names_of(names@)),
{
    let mut i: usize = 0;
    while i < names.len()
        invariant
            i <= names.len(),
            forall|a: int, b: int| 0 <= a < b < i ==> names_of(names@)[a] != names_of(names@)[b],
        decreases names.len() - i,
    {
        if named_before(names, i, &names[i]) {
            let ghost j = choose|j: int| 0 <= j < i && (#[trigger] names[j])@ == names[i as int]@;
            assert(names_of(names@)[j] == names_of(names@)[i as int]);
            return true;
        }
        i = i + 1;
    }
    false
}

/// The instructions of a function definition: a label with its name, its
/// body, and a return; or the reason for rejecting it. The body is compiled
/// at stack index 2, outside every loop, with each parameter bound to its
/// word above the stack pointer.
pub fn compile_definition_instrs(
    d: &Definition,
    labels: &mut i32,
    func_names: &im::HashSet<String>,
) -> (r: Result<Vec<Instr>, CompileError>)
    requires
        def_weight(d@) <= STACK_INDEX_LIMIT,
        *old(labels) + 2 * def_weight(d@) <= i32::MAX,
    ensures
        *old(labels) <= *final(labels) <= *old(labels) + 2 * def_weight(d@),
        agrees(
            r,
            *final(labels) as int,
            compile_definition(d@, *old(labels) as int, name_members(*func_names)),
        ),
{
    match d {
        Definition::Fun(name, params, body) => {
            if has_repeat(params) {
                return Err(CompileError::DuplicateParameter);
            }
            let ghost names = names_of(params@);
            let mut body_env = env_new();
            let mut k: usize = 0;
            while k < params.len()
                invariant
                    k <= params.len(),
                    params.len() <= STACK_INDEX_LIMIT,
                    names == names_of(params@),
                    env_entries(body_env) == param_env(names, k as int),
                decreases params.len() - k,
            {
                let offset: i64 = -8 * (k as i64 + 1);
                body_env = env_update(&body_env, params[k].clone(), offset);
                k = k + 1;
            }
            let mut out_instrs: Vec<Instr> = Vec::new();
            assert(code_of(out_instrs@) =~= Seq::empty());
            emit(&mut out_instrs, Instr::Label(Val::Label(name.clone())));
            let outside = String::new();
            let body_is = match compile_to_instrs(
                body,
                2,
                &body_env,
                labels,
                &outside,
                func_names,
            ) {
                Ok(code) => code,
                Err(err) => {
                    return Err(err);
                },
            };
            emit_all(&mut out_instrs, body_is);
            emit(&mut out_instrs, Instr::Ret());
            assert(code_of(out_instrs@) =~= seq![InstrView::Label(label(name@))] + code_of(
                body_is@,
            ) + seq![InstrView::Ret()]);
            Ok(out_instrs)
        },
    }
}

/// The assembly text of the function definitions of a program and the
/// assembly text of its main expression, or the reason for rejecting the
/// program.
pub fn compile(p: &Program) -> (r: Result<(String, String), CompileError>)
    requires
        program_fits(p@),
    ensures
        match compile_program(p@) {
            Ok((defs_code, main_code)) => r matches Ok(texts) && texts.0@ == listing(defs_code)
                && texts.1@ == listing(main_code),
            Err(err) => r matches Err(x) && x@ == err,
        },
{
    let si: i64 = 2;
    let mut labels: i32 = 0;
    let brake = String::new();
    let mut def_instrs: Vec<Instr> = Vec::new();
    assert(code_of(def_instrs@) =~= Seq::empty());
    let mut func_names = names_new();
    let ghost defs = defs_of(p.defs@);
    let ghost funcs = name_members(p.func_list);
    let mut i: usize = 0;
    while i < p.defs.len()
        invariant
            i <= p.defs.len(),
            defs == defs_of(p.defs@),
            funcs == name_members(p.func_list),
            program_fits(p@),
            0 <= labels <= 2 * defs_weight(defs, i as int),
            defs_weight(defs, i as int) <= defs_weight(defs, p.defs.len() as int),
            forall|x: Seq<char>|
                name_members(func_names).contains(x) <==> defined_before(defs, i as int, x),
            compile_definitions(defs, i as int, 0, funcs) == Ok::<
                (Seq<InstrView>, int),
                CompileErrorView,
            >((code_of(def_instrs@), labels as int)),
        decreases p.defs.len() - i,
    {
        proof {
            lemma_defs_weight_step(defs, i as int, p.defs.len() as int);
        }
        let def = &p.defs[i];
        let name = match def {
            Definition::Fun(name, _, _) => name,
        };
        assert(name@ == def_name(defs[i as int]));
        if names_contains(&func_names, name) {
            proof {
                lemma_definitions_reject(defs, i + 1, p.defs.len() as int, 0, funcs);
            }
            return Err(CompileError::DuplicateFunction(name.clone()));
        }
        let ghost seen = name_members(func_names);
        names_insert(&mut func_names, name.clone());
        assert forall|x: Seq<char>|
            name_members(func_names).contains(x) <==> defined_before(defs, i + 1, x) by {
            if defined_before(defs, i + 1, x) {
                let j = choose|j: int|
                    0 <= j < i + 1 && j < defs.len() && def_name(#[trigger] defs[j]) == x;
                if j < i {
                    assert(defined_before(defs, i as int, x));
                }
            }
            if seen.contains(x) {
                let j = choose|j: int|
                    0 <= j < i && j < defs.len() && def_name(#[trigger] defs[j]) == x;
                assert(0 <= j < i + 1 && j < defs.len() && def_name(defs[j]) == x);
            }
            if x == name@ {
                assert(def_name(defs[i as int]) == x);
            }
        }
        match compile_definition_instrs(def, &mut labels, &p.func_list) {
            Ok(code) => {
                emit_all(&mut def_instrs, code);
            },
            Err(err) => {
                proof {
                    lemma_definitions_reject(defs, i + 1, p.defs.len() as int, 0, funcs);
                }
                return Err(err);
            },
        }
        i = i + 1;
    }
    let env = env_new();
    let main_instrs = match compile_to_instrs(
        &p.main,
        si,
        &env,
        &mut labels,
        &brake,
        &p.func_list,
    ) {
        Ok(code) => code,
        Err(err) => {
            return Err(err);
        },
    };
    let def_output = instrs_to_str(&def_instrs);
    let main_output = instrs_to_str(&main_instrs);
    Ok((def_output, main_output))
}

} // verus!
