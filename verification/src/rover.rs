//! Rover: an embedded, JIT-compiled, rust-like scripting language.

pub mod ast;
pub mod grammar;
pub mod parser;
pub mod jit;
pub mod translate;
pub mod eval;

use vstd::prelude::*;
use cranelift_codegen::Context;
use cranelift_codegen::ir::{Block, Type, Value};
use cranelift_frontend::{FunctionBuilderContext, Variable};
use cranelift_jit::JITModule;
use cranelift_module::FuncId;
use crate::rover::ast::{ASTNode, Ast, asts};
use crate::rover::grammar::function as parsed_function;
use crate::rover::jit::{
    after_inst, after_ssa, builder_state, builder_values, insertable, module_data, module_functions,
    module_grows, module_linkage, module_signatures, linkage_complete, generator_error, context_params, builder_var_types, grows, BlockStatus, BuilderView, FnLinkage, ValueDef, imports_declared,
    lemma_imports_declared_grow, lemma_module_grows_trans,
};
use crate::rover::translate::{
    Translator, Variables, all_scoped, all_accepted, vars_typed, lemma_function_vars, builds_on, fail, scoped, function_vars,
    lemma_all_scoped, lemma_builds_on_refl, lemma_after_inst_builds_on, lemma_builds_on_trans,
    names_of, variable_names, computes, reaches, reached, lemma_computes_grows, lemma_path_grows, is_path,
    distinct_vars, straight, assigns, keeps_var,
};

verus! {

broadcast use {
    jit::lemma_imports_declared_grow,
    jit::lemma_module_grows_trans,
    jit::lemma_grows_trans,
    vstd::map_lib::lemma_submap_of_trans,
};

/// The engine: the code generator's context for the function being compiled (with the
/// builder's context), the module that holds the compiled code, and the functions imported so
/// far, by name.
pub struct Rover {
    ctx: (Context, FunctionBuilderContext),
    module: JITModule,
    imported: Vec<(String, FuncId)>,
    built: Ghost<Map<FuncId, BuiltFunction>>,
}

/// A function as the engine built it and handed it to the code generator.
pub struct BuiltFunction {
    /// Its instructions, values and control flow.
    pub view: BuilderView,
    /// Its variables, by name.
    pub variables: Seq<(Seq<char>, Variable)>,
    /// Its entry block.
    pub entry: Block,
    /// The values of the variables in the entry block once the parameters and the result are
    /// defined.
    pub start_vars: Map<(Variable, Block), Value>,
    /// The value of each statement.
    pub values: Seq<Value>,
    /// The block where the statements end.
    pub end: Block,
    /// The values of the variables the builder knew there when the statements ended.
    pub end_vars: Map<(Variable, Block), Value>,
    /// The value the function returns.
    pub returned: Value,
}

/// What the function built computes for a function with result `ret` and statements `body`:
/// its result variable starts in the entry block at a zero constant; each statement computes its
/// value; control gets from the entry block to the block where the statements end, which
/// returns the single value the result variable holds there. When no statement branches, loops
/// or assigns the result variable, the statements end in the entry block and the function
/// returns that zero constant.
pub open spec fn built_meaning(
    b: BuiltFunction,
    ret: Seq<char>,
    body: Seq<Ast>,
    imported: Seq<(String, FuncId)>,
    m: JITModule,
) -> bool {
    &&& exists|k: int|
        #![trigger b.variables[k]]
        0 <= k < b.variables.len() && b.variables[k].0 == ret && b.start_vars.contains_key((b.variables[k].1, b.entry))
            && b.view.defs.contains_key(b.start_vars[(b.variables[k].1, b.entry)]) && b.view.defs[b.start_vars[(
            b.variables[k].1,
            b.entry,
        )]] == ValueDef::Const(0) && (b.end_vars.contains_key((b.variables[k].1, b.end)) ==> b.returned
            == b.end_vars[(b.variables[k].1, b.end)]) && ((forall|j: int|
            0 <= j < body.len() ==> straight(#[trigger] body[j]) && !assigns(body[j], ret)) ==> b.end == b.entry
            && b.returned == b.start_vars[(b.variables[k].1, b.entry)])
    &&& b.values.len() == body.len()
    &&& forall|j: int| 0 <= j < body.len() ==> computes(b.view, imported, m, #[trigger] body[j], b.values[j])
    &&& reaches(b.view, b.entry, b.end)
    &&& b.view.returns.contains_key(b.end)
    &&& b.view.returns[b.end] == seq![b.returned]
}

/// Once the function is built from `sz`, where the builder stood in the entry block with
/// nothing created but it, and after the result variable is read (`su`) and returned (`sr`),
/// every block that holds instructions is sealed and filled.
pub proof fn lemma_function_complete(sz: BuilderView, se: BuilderView, su: BuilderView, sr: BuilderView)
    requires
        insertable(sz),
        sz.blocks.dom() == set![sz.position->0],
        sz.sealed.contains(sz.position->0),
        builds_on(sz, se),
        after_ssa(se, su),
        su.sealed == se.sealed,
        after_inst(su, sr, true, Set::empty()),
    ensures
        forall|bl: Block| #[trigger] sr.blocks.contains_key(bl) ==> sr.blocks[bl] == BlockStatus::Pristine || (
            sr.sealed.contains(bl) && sr.blocks[bl] == BlockStatus::Filled),
{
    let e = sz.position->0;
    let d = se.position->0;
    assert forall|bl: Block| #[trigger] sr.blocks.contains_key(bl) implies sr.blocks[bl] == BlockStatus::Pristine || (
        sr.sealed.contains(bl) && sr.blocks[bl] == BlockStatus::Filled) by {
        assert(se.blocks.contains_key(bl));
        if bl != d {
            if bl == e {
                assert(se.blocks[e] == BlockStatus::Filled);
            } else {
                assert(!sz.blocks.contains_key(bl));
                assert(se.blocks[bl] == BlockStatus::Filled);
            }
            assert(su.blocks[bl] == se.blocks[bl]);
        }
    }
}

/// What a built function computes stays so as the module grows.
proof fn lemma_built_meaning_grows(
    b: BuiltFunction,
    ret: Seq<char>,
    body: Seq<Ast>,
    imported: Seq<(String, FuncId)>,
    m: JITModule,
    m2: JITModule,
)
    requires
        built_meaning(b, ret, body, imported, m),
        module_grows(m, m2),
    ensures
        built_meaning(b, ret, body, imported, m2),
{
    assert forall|j: int| 0 <= j < body.len() implies computes(b.view, imported, m2, #[trigger] body[j], b.values[j]) by {
        lemma_computes_grows(b.view, b.view, imported, m, m2, body[j], b.values[j]);
    }
}

impl Rover {
    /// The names of the imported functions, in order of import.
    pub closed spec fn imported_names(&self) -> Seq<Seq<char>> {
        self.imported@.map_values(|e: (String, FuncId)| e.0@)
    }

    /// The identifiers of the imported functions, in order of import.
    pub closed spec fn imported_ids(&self) -> Seq<FuncId> {
        self.imported@.map_values(|e: (String, FuncId)| e.1)
    }

    /// The imported functions, by name, in order of import.
    pub closed spec fn imports(&self) -> Seq<(String, FuncId)> {
        self.imported@
    }

    /// The functions the engine built, by identifier.
    pub closed spec fn built_of(&self) -> Map<FuncId, BuiltFunction> {
        self.built@
    }

    /// The module the engine compiles into.
    pub closed spec fn module_of(&self) -> JITModule {
        self.module
    }

    /// The context holds no function between compilations.
    pub closed spec fn ctx_ready(&self) -> bool {
        context_params(self.ctx.0) == Seq::<Type>::empty()
    }

    /// Every imported function is declared in the module, and the context is ready.
    pub open spec fn wf(&self) -> bool {
        &&& forall|i: int| 0 <= i < self.imported_ids().len() ==> module_functions(self.module_of()).contains_value(
            #[trigger] self.imported_ids()[i],
        )
        &&& self.ctx_ready()
    }

    proof fn lemma_wf(&self)
        ensures
            self.wf() <==> imports_declared(self.imported@, self.module) && self.ctx_ready(),
    {
        if self.wf() {
            assert forall|i: int| 0 <= i < self.imported@.len() implies module_functions(self.module).contains_value(
                #[trigger] self.imported@[i].1,
            ) by {
                assert(self.imported_ids()[i] == self.imported@[i].1);
            }
        }
        if imports_declared(self.imported@, self.module) && self.ctx_ready() {
            assert forall|i: int| 0 <= i < self.imported_ids().len() implies module_functions(self.module_of()).contains_value(
                #[trigger] self.imported_ids()[i],
            ) by {
                assert(self.imported_ids()[i] == self.imported@[i].1);
            }
        }
    }

    /// An engine that compiles into `module`, with nothing imported yet.
    pub fn new(module: JITModule) -> (r: Self)
        ensures
            r.module_of() == module,
            r.imported_names() == Seq::<Seq<char>>::empty(),
            r.imported_ids() == Seq::<FuncId>::empty(),
            r.wf(),
            r.built_of() == Map::<FuncId, BuiltFunction>::empty(),
    {
        let ctx = jit::make_context(&module);
        let fctx = jit::new_builder_context();
        let r = Rover { ctx: (ctx, fctx), module, imported: Vec::new(), built: Ghost(Map::empty()) };
        assert(r.imported_names() =~= Seq::<Seq<char>>::empty());
        assert(r.imported_ids() =~= Seq::<FuncId>::empty());
        r
    }

    /// The module the engine compiles into, to finalize its code.
    pub fn module_mut(&mut self) -> (m: &mut JITModule)
        ensures
            *m == old(self).module_of(),
            final(self).module_of() == *final(m),
            final(self).imported_names() == old(self).imported_names(),
            final(self).imported_ids() == old(self).imported_ids(),
            final(self).built_of() == old(self).built_of(),
    {
        &mut self.module
    }

    /// Declares `func` as a function defined outside the module, with import linkage, taking one
    /// integer per parameter and returning one; calls to `func` in compiled code then go to it.
    /// A name the module does not declare yet is always accepted; a data object's name is
    /// refused; a function already declared is accepted when its signature is the same.
    pub fn import_func(&mut self, func: String, params: Vec<String>, _result: String) -> (r: Result<(), String>)
        requires
            old(self).wf(),
        ensures
            final(self).wf(),
            !module_functions(old(self).module_of()).contains_key(func@) && !module_data(
                old(self).module_of(),
            ).contains_key(func@) ==> r is Ok,
            module_data(old(self).module_of()).contains_key(func@) ==> r is Err,
            r is Ok ==> {
                &&& module_functions(final(self).module_of()) == module_functions(old(self).module_of()).insert(
                    func@,
                    module_functions(final(self).module_of())[func@],
                )
                &&& final(self).imported_names() == old(self).imported_names().push(func@)
                &&& final(self).imported_ids() == old(self).imported_ids().push(
                    module_functions(final(self).module_of())[func@],
                )
                &&& (!module_functions(old(self).module_of()).contains_key(func@) ==> module_linkage(
                    final(self).module_of(),
                )[module_functions(final(self).module_of())[func@]] == FnLinkage::Import)
                &&& module_signatures(final(self).module_of())[module_functions(final(self).module_of())[func@]]
                    == (params@.len(), 1nat)
            },
            r is Err ==> final(self).imported_names() == old(self).imported_names() && final(self).imported_ids()
                == old(self).imported_ids() && module_functions(final(self).module_of()) == module_functions(
                old(self).module_of(),
            ),
            module_data(final(self).module_of()) == module_data(old(self).module_of()),
            module_grows(old(self).module_of(), final(self).module_of()),
            final(self).built_of() == old(self).built_of(),
    {
        proof {
            self.lemma_wf();
        }
        let word = jit::pointer_type(jit::target_config(&self.module));
        let sig = jit::word_signature(&self.module, word, params.len());
        let ghost m0 = self.module;
        let id = jit::declare_function(&mut self.module, func.as_str(), FnLinkage::Import, &sig)?;
        let ghost before = self.imported_names();
        let ghost before_ids = self.imported_ids();
        proof {
            assert(module_functions(self.module)[func@] == id);
            assert(module_grows(m0, self.module));
            lemma_imports_declared_grow(self.imported@, m0, self.module);
        }
        self.imported.push((func, id));
        assert(self.imported_names() =~= before.push(func@));
        assert(self.imported_ids() =~= before_ids.push(id));
        proof {
            assert(self.imported@[self.imported@.len() - 1].1 == id);
            assert(module_functions(self.module).contains_key(func@));
            assert(imports_declared(self.imported@, self.module));
            self.lemma_wf();
        }
        Ok(())
    }

    /// Parses `input` as one function, translates it and hands it to the code generator, which
    /// compiles it as the module's function of its name, with export linkage; returns its
    /// identifier, and records the function built (see `built_meaning`): its result variable
    /// starts at zero, its statements run in order and it returns the result variable's value.
    /// The code is finalized by the module's owner, who provides the symbols the code calls. An
    /// input that does not parse is refused and nothing changes. A function whose statements
    /// make no call into the module and assign no comparison, under a name the module does not
    /// declare yet, is always declared; it then compiles unless the code generator refuses it,
    /// which is reported with the generator's message.
    #[verifier::spinoff_prover]
    pub fn compile(&mut self, input: &str) -> (r: Result<FuncId, String>)
        requires
            old(self).wf(),
            parsed_function(input@) matches Some(f) ==> all_scoped(
                f.body,
                function_vars(f.params, f.ret, f.body),
            ),
        ensures
            final(self).wf(),
            final(self).imported_names() == old(self).imported_names(),
            final(self).imported_ids() == old(self).imported_ids(),
            module_grows(old(self).module_of(), final(self).module_of()),
            parsed_function(input@) is None ==> (r matches Err(e) && e@ == "the input is not a function"@
                && *final(self) == *old(self)),
            r matches Ok(id) ==> (parsed_function(input@) matches Some(f) && final(self).built_of().contains_key(id)
                && built_meaning(final(self).built_of()[id], f.ret, f.body, final(self).imports(), final(self).module_of())),
            final(self).imports() == old(self).imports(),
            r is Err ==> final(self).built_of() == old(self).built_of(),
            r matches Ok(id) ==> (parsed_function(input@) matches Some(f) && module_functions(
                final(self).module_of(),
            ).contains_key(f.name) && module_functions(final(self).module_of())[f.name] == id
                && module_signatures(final(self).module_of())[id] == (f.params.len(), 1nat)
                && (linkage_complete(old(self).module_of()) ==> module_linkage(final(self).module_of())[id]
                == FnLinkage::Export)),
            linkage_complete(old(self).module_of()) ==> linkage_complete(final(self).module_of()),
            parsed_function(input@) matches Some(f) ==> (all_accepted(f.body) && !module_functions(
                old(self).module_of(),
            ).contains_key(f.name) && !module_data(old(self).module_of()).contains_key(f.name) ==> {
                &&& module_functions(final(self).module_of()).contains_key(f.name)
                &&& module_signatures(final(self).module_of())[module_functions(final(self).module_of())[f.name]]
                    == (f.params.len(), 1nat)
                &&& r matches Err(e) ==> generator_error(e@)
            }),
    {
        proof {
            self.lemma_wf();
        }
        let ghost m0 = self.module;
        let (name, params, ret, body) = match parser::function(input) {
            Some(f) => f,
            None => {
                return fail("the input is not a function");
            },
        };
        let ghost nv = name@;
        let word = jit::pointer_type(jit::target_config(&self.module));
        let sig = jit::word_signature(&self.module, word, params.len());
        let ghost retv = ret@;
        let ghost bodyv = asts(body@);
        let built = match self.translate(params, ret, body) {
            Ok(g) => g,
            Err(e) => {
                jit::clear_context(&self.module, &mut self.ctx.0);
                proof {
                    self.lemma_wf();
                }
                return Err(e);
            },
        };
        let ghost m1 = self.module;
        let id = match jit::declare_function(
            &mut self.module,
            name.as_str(),
            FnLinkage::Export,
            &sig,
        ) {
            Ok(id) => id,
            Err(e) => {
                jit::clear_context(&self.module, &mut self.ctx.0);
                proof {
                    self.lemma_wf();
                }
                return Err(e);
            },
        };
        let ghost m2 = self.module;
        assert(module_signatures(m2)[id] == (params@.len(), 1nat));
        assert(parsed_function(input@)->0.params.len() == params@.len());
        proof {
            if linkage_complete(m0) {
                assert(linkage_complete(m1));
                if module_functions(m1).contains_key(nv) {
                    assert(module_linkage(m1).contains_key(module_functions(m1)[nv]));
                }
                assert(module_linkage(m2)[id] == FnLinkage::Export);
            }
        }
        proof {
            assert(module_functions(m2)[nv] == id);
            assert(module_functions(m2).dom().contains(nv));
            assert(module_functions(m2).contains_value(id));
            assert(module_grows(m1, m2));
            lemma_module_grows_trans(m0, m1, m2);
            lemma_imports_declared_grow(self.imported@, m1, m2);
        }
        let defined = jit::define_function(&mut self.module, id, &mut self.ctx.0);
        jit::clear_context(&self.module, &mut self.ctx.0);
        proof {
            assert(module_grows(m2, self.module));
            lemma_module_grows_trans(m0, m2, self.module);
            lemma_imports_declared_grow(self.imported@, m2, self.module);
            self.lemma_wf();
        }
        match defined {
            Ok(()) => {
                proof {
                    lemma_built_meaning_grows(built@, retv, bodyv, self.imported@, m1, self.module);
                }
                self.built = Ghost(self.built@.insert(id, built@));
                Ok(id)
            },
            Err(e) => Err(e),
        }
    }

    /// Builds the function with parameters `params`, result `ret` and statements `nodes`: one
    /// integer per parameter and one result; every variable is declared first, the parameters
    /// are defined from the entry block and the result starts at zero; the statements follow
    /// in order and the function returns its result variable.
    #[verifier::rlimit(100)]
    #[verifier::spinoff_prover]
    fn translate(&mut self, params: Vec<String>, ret: String, nodes: Vec<ASTNode>) -> (r: Result<Ghost<BuiltFunction>, String>)
        requires
            imports_declared(old(self).imported@, old(self).module),
            all_scoped(asts(nodes@), function_vars(names_of(params@), ret@, asts(nodes@))),
            context_params(old(self).ctx.0) == Seq::<Type>::empty(),
        ensures
            final(self).imported@ == old(self).imported@,
            module_grows(old(self).module, final(self).module),
            imports_declared(final(self).imported@, final(self).module),
            all_accepted(asts(nodes@)) ==> r is Ok && final(self).module == old(self).module,
            r matches Ok(g) ==> built_meaning(g@, ret@, asts(nodes@), final(self).imported@, final(self).module),
            final(self).built == old(self).built,
    {
        let word = jit::pointer_type(jit::target_config(&self.module));
        let mut k: usize = 0;
        while k < params.len()
            invariant
                self.imported@ == old(self).imported@,
                self.built == old(self).built,
                self.module == old(self).module,
                k <= params@.len(),
                context_params(self.ctx.0).len() == k,
                forall|m: int| 0 <= m < k ==> #[trigger] context_params(self.ctx.0)[m] == word,
            decreases params@.len() - k,
        {
            jit::add_param(jit::context_signature(&mut self.ctx.0), word);
            k = k + 1;
        }
        jit::add_return(jit::context_signature(&mut self.ctx.0), word);
        let cfg = jit::target_config(&self.module);
        let ghost sig_params = context_params(self.ctx.0);
        assert(sig_params.len() == params@.len());

        self.ctx.1 = jit::new_builder_context();
        let mut builder = jit::new_builder(&mut self.ctx);
        let entry_block = jit::create_block(&mut builder);
        jit::append_block_params_for_function_params(&mut builder, entry_block);
        let entry_values = jit::block_params(&builder, entry_block);
        let ghost sa = builder_state(builder);
        proof {
            let added = jit::builder_user_params(builder)[entry_block];
            assert(added.skip(0) =~= added);
            assert(added.is_prefix_of(entry_values@));
            assert forall|m: int| 0 <= m < params@.len() implies sa.types.contains_key(#[trigger] entry_values@[m])
                && sa.types[entry_values@[m]] == word by {
                assert(entry_values@[m] == added[m]);
            }
        }
        assert(builder_state(builder).blocks[entry_block] == BlockStatus::Pristine);
        assert(builder_state(builder).position is None);
        jit::switch_to_block(&mut builder, entry_block);
        let ghost sw = builder_state(builder);
        assert(sw.position == Some(entry_block) && sw.blocks.contains_key(entry_block));
        jit::seal_block(&mut builder, entry_block);
        assert(builder_state(builder).blocks.contains_key(entry_block));
        assert(builder_state(builder).blocks[entry_block] != BlockStatus::Filled);
        let ghost ss = builder_state(builder);
        assert(grows(sa, ss));

        let names = variable_names(&params, &ret, &nodes);
        let variables = Variables::declare_all(&mut builder, word, &names);
        let ghost all = function_vars(names_of(params@), ret@, asts(nodes@));
        assert(variables.names() == all);
        let ghost se0 = builder_state(builder);
        assert(insertable(se0));
        assert(se0.types == ss.types);
        assert forall|m: int| 0 <= m < params@.len() implies se0.types.contains_key(#[trigger] entry_values@[m])
            && se0.types[entry_values@[m]] == word by {
            assert(sa.types.contains_key(entry_values@[m]));
            assert(ss.types.dom().contains(entry_values@[m]));
        }
        let mut i: usize = 0;
        while i < params.len()
            invariant
                0 <= i <= params@.len(),
                self.imported@ == old(self).imported@,
                self.built == old(self).built,
                self.module == old(self).module,
                imports_declared(self.imported@, self.module),
                insertable(se0),
                builder_state(builder) == (BuilderView { vars: builder_state(builder).vars, ..se0 }),
                forall|m: int| 0 <= m < entry_values@.len() ==> builder_values(builder).contains(#[trigger] entry_values@[m]),
                params@.len() <= entry_values@.len(),
                forall|m: int| 0 <= m < params@.len() ==> se0.types.contains_key(#[trigger] entry_values@[m])
                    && se0.types[entry_values@[m]] == word,
                vars_typed(variables@, builder_var_types(builder), word),
                variables.names() == all,
                all == function_vars(names_of(params@), ret@, asts(nodes@)),
            decreases params@.len() - i,
        {
            if i >= entry_values.len() {
                return fail("the entry block lacks a parameter");
            }
            proof {
                lemma_function_vars(names_of(params@), ret@, asts(nodes@), params@[i as int]@);
                assert(names_of(params@)[i as int] == params@[i as int]@);
            }
            match variables.get(&params[i]) {
                Some(var) => {
                    proof {
                        let m = choose|m: int| 0 <= m < variables@.len() && #[trigger] variables@[m] == (params@[i as int]@, var);
                        assert(builder_var_types(builder).contains_key(variables@[m].1));
                    }
                    if !jit::try_def_var(&mut builder, var, entry_values[i]) {
                        return fail("variable not declared");
                    }
                },
                None => {
                    return fail("variable not defined");
                },
            }
            i = i + 1;
        }
        let zero = jit::ins_iconst(&mut builder, word, 0);
        proof {
            lemma_function_vars(names_of(params@), ret@, asts(nodes@), ret@);
        }
        let return_variable = match variables.get(&ret) {
            Some(var) => var,
            None => {
                return fail("variable not defined");
            },
        };
        proof {
            let m = choose|m: int| 0 <= m < variables@.len() && #[trigger] variables@[m] == (ret@, return_variable);
            assert(builder_var_types(builder).contains_key(variables@[m].1));
        }
        if !jit::try_def_var(&mut builder, return_variable, zero) {
            return fail("variable not declared");
        }
        let ghost sz = builder_state(builder);

        proof {
            lemma_all_scoped(asts(nodes@), all);
            lemma_builds_on_refl(sz);
        }
        let ghost start_vars = sz.vars;
        let ghost ret_var = return_variable;
        let ghost vars_seq = variables@;
        let ghost mut vals: Seq<Value> = Seq::empty();
        let ghost mret = choose|m: int| 0 <= m < variables@.len() && #[trigger] variables@[m] == (ret@, return_variable);
        proof {
            assert(vars_seq[mret].0 == ret@ && vars_seq[mret].1 == ret_var);
            assert(sz.defs.contains_key(zero) && sz.defs[zero] == ValueDef::Const(0));
        }
        let mut trans = Translator { word, variables, imported: &self.imported, builder };
        let mut j: usize = 0;
        while j < nodes.len()
            invariant
                0 <= j <= nodes@.len(),
                trans.variables.names() == all,
                trans.word == word,
                trans.imported@ == old(self).imported@,
                self.imported@ == old(self).imported@,
                self.built == old(self).built,
                forall|m: int| 0 <= m < asts(nodes@).len() ==> scoped(#[trigger] asts(nodes@)[m], all),
                insertable(sz),
                sz.blocks.dom() == set![entry_block],
                sz.position == Some(entry_block),
                sz.sealed.contains(entry_block),
                builds_on(sz, builder_state(trans.builder)),
                module_grows(old(self).module, self.module),
                imports_declared(trans.imported@, self.module),
                vars_typed(trans.variables@, builder_var_types(trans.builder), word),
                sz.var_types.contains_key(return_variable),
                all_accepted(asts(nodes@)) ==> self.module == old(self).module,
                vals.len() == j,
                forall|m: int| 0 <= m < j ==> computes(builder_state(trans.builder), self.imported@, self.module,
                    #[trigger] asts(nodes@)[m], vals[m]),
                trans.variables@ == vars_seq,
                sz.vars == start_vars,
                sz.defs.contains_key(zero) && sz.defs[zero] == ValueDef::Const(0),
                distinct_vars(trans.variables@),
                0 <= mret < vars_seq.len() && vars_seq[mret] == (ret@, ret_var),
                (forall|m: int| 0 <= m < j ==> straight(#[trigger] asts(nodes@)[m]) && !assigns(asts(nodes@)[m], ret@))
                    ==> builder_state(trans.builder).position == sz.position && keeps_var(sz, builder_state(trans.builder), ret_var),
            decreases nodes@.len() - j,
        {
            assert(asts(nodes@)[j as int] == nodes@[j as int].to_ast());
            let ghost sj = builder_state(trans.builder);
            let ghost mj = self.module;
            let v = trans.translate_astnode(&mut self.module, &nodes[j])?;
            proof {
                lemma_builds_on_trans(sz, sj, builder_state(trans.builder));
                lemma_module_grows_trans(old(self).module, mj, self.module);
                let sn = builder_state(trans.builder);
                assert forall|m: int| 0 <= m < j implies computes(sn, self.imported@, self.module,
                    #[trigger] asts(nodes@)[m], vals[m]) by {
                    lemma_computes_grows(sj, sn, self.imported@, mj, self.module, asts(nodes@)[m], vals[m]);
                }
                if forall|m: int| 0 <= m < j + 1 ==> straight(#[trigger] asts(nodes@)[m]) && !assigns(asts(nodes@)[m], ret@) {
                    assert(straight(asts(nodes@)[j as int]) && !assigns(asts(nodes@)[j as int], ret@));
                    assert(keeps_var(sj, sn, vars_seq[mret].1));
                }
                vals = vals.push(v);
            }
            j = j + 1;
        }
        let ghost se = builder_state(trans.builder);
        proof {
            assert(sz.vars.contains_key((ret_var, entry_block)));
        }
        let return_value = match jit::try_use_var(&mut trans.builder, return_variable) {
            Some(v) => v,
            None => {
                return fail("variable not declared");
            },
        };
        let ghost su = builder_state(trans.builder);
        let mut results = Vec::new();
        results.push(return_value);
        jit::ins_return(&mut trans.builder, &results);
        let ghost sr = builder_state(trans.builder);
        proof {
            lemma_function_complete(sz, se, su, sr);
            assert(grows(se, sr));
            assert forall|m: int| 0 <= m < asts(nodes@).len() implies computes(sr, self.imported@, self.module,
                #[trigger] asts(nodes@)[m], vals[m]) by {
                lemma_computes_grows(se, sr, self.imported@, self.module, self.module, asts(nodes@)[m], vals[m]);
            }
            let p = choose|p: Seq<Block>|
                #[trigger] is_path(se, p) && p[0] == sz.position->0 && p.last() == se.position->0 && forall|i: int|
                    1 <= i < p.len() ==> !sz.blocks.contains_key(#[trigger] p[i]);
            lemma_path_grows(se, sr, p);
            assert(reaches(sr, entry_block, se.position->0));
            assert(sz.defs.submap_of(sr.defs));
            assert(sr.defs.dom().contains(zero));
            assert(sr.returns.contains_key(se.position->0));
            assert(results@ =~= seq![return_value]);
        }
        let ghost b = BuiltFunction {
            view: sr,
            variables: vars_seq,
            entry: entry_block,
            start_vars,
            values: vals,
            end: se.position->0,
            end_vars: se.vars,
            returned: return_value,
        };
        proof {
            let m = choose|m: int| 0 <= m < vars_seq.len() && #[trigger] vars_seq[m] == (ret@, ret_var);
            assert(b.variables[m].0 == ret@ && b.start_vars.contains_key((b.variables[m].1, b.entry)));
        }
        jit::finalize(trans.builder, cfg);
        Ok(Ghost(b))
    }
}

} // verus!
