//! The code generator Rover compiles with: the declarations of its types and the calls the
//! translation makes into it.
//!
//! The generator's values (types, values, blocks, variables, function and data identifiers)
//! are opaque handles. What the builder and the module hold is named here, as far as the
//! generator checks it (its assertions and indexing would otherwise panic) and as far as the
//! translation's meaning needs it: where the builder stands, the status of each block it
//! created, which blocks are sealed or targeted by a branch, the values and their types, what
//! defines each value this library created (a constant, an operation on two values, a
//! comparison, a result of a call with its callee and arguments, a data object's address or a
//! parameter it appended), which block ends with which jump, branch or return, the declared
//! variables with their types and the value each holds in each block, the function references,
//! and which
//! functions and data objects the module declares under which names, with their linkage and the
//! shape of their signatures. Each call states its requirements and its effect over these
//! names.

use vstd::prelude::*;
use cranelift_codegen::ir::{AbiParam, Block, BlockArg, FuncRef, GlobalValue, Inst, InstBuilder, Signature, Type, Value};
use cranelift_codegen::ir::condcodes::IntCC;
use cranelift_codegen::isa::TargetFrontendConfig;
use cranelift_codegen::Context;
use cranelift_frontend::{FunctionBuilder, FunctionBuilderContext, Variable};
use cranelift_jit::JITModule;
use cranelift_module::{DataId, FuncId, Linkage, Module};

verus! {

#[verifier::external_type_specification]
#[verifier::external_body]
pub struct ExType(Type);

#[verifier::external_type_specification]
#[verifier::external_body]
pub struct ExValue(Value);

#[verifier::external_type_specification]
#[verifier::external_body]
pub struct ExBlock(Block);

#[verifier::external_type_specification]
#[verifier::external_body]
pub struct ExInst(Inst);

#[verifier::external_type_specification]
#[verifier::external_body]
pub struct ExFuncRef(FuncRef);

#[verifier::external_type_specification]
#[verifier::external_body]
pub struct ExGlobalValue(GlobalValue);

#[verifier::external_type_specification]
#[verifier::external_body]
pub struct ExSignature(Signature);

#[verifier::external_type_specification]
#[verifier::external_body]
pub struct ExTargetFrontendConfig(TargetFrontendConfig);

#[verifier::external_type_specification]
#[verifier::external_body]
pub struct ExContext(Context);

#[verifier::external_type_specification]
#[verifier::external_body]
pub struct ExVariable(Variable);

#[verifier::external_type_specification]
#[verifier::external_body]
pub struct ExFunctionBuilder<'a>(FunctionBuilder<'a>);

#[verifier::external_type_specification]
#[verifier::external_body]
pub struct ExFunctionBuilderContext(FunctionBuilderContext);

#[verifier::external_type_specification]
#[verifier::external_body]
pub struct ExFuncId(FuncId);

#[verifier::external_type_specification]
#[verifier::external_body]
pub struct ExDataId(DataId);

#[verifier::external_type_specification]
#[verifier::external_body]
pub struct ExJITModule(JITModule);

/// How a declared function or data object is linked.
#[derive(Copy, Clone, Debug, PartialEq, Eq, Structural)]
pub enum FnLinkage {
    /// Defined outside the module.
    Import,
    /// Defined in the module and visible outside it.
    Export,
}

/// A condition of an integer comparison.
#[derive(Copy, Clone, Debug, PartialEq, Eq, Structural)]
pub enum IntCond {
    Equal,
    NotEqual,
    SignedLessThan,
    SignedLessThanOrEqual,
    SignedGreaterThan,
    SignedGreaterThanOrEqual,
}

/// The status of a block the builder created: no instruction yet, some instructions, or ended
/// by a terminator.
#[derive(Copy, Clone, Debug, PartialEq, Eq, Structural)]
pub enum BlockStatus {
    Pristine,
    Partial,
    Filled,
}

/// An arithmetic or logical instruction on two values.
#[derive(Copy, Clone, Debug, PartialEq, Eq, Structural)]
pub enum BinOp {
    Add,
    Sub,
    Mul,
    UDiv,
    And,
    Or,
}

/// What defines a value of the function being built.
pub enum ValueDef {
    /// `iconst` of the integer.
    Const(int),
    /// The instruction applied to the two values.
    Binary(BinOp, Value, Value),
    /// `icmp` with the condition on the two values.
    Compare(IntCond, Value, Value),
    /// The result, with the index, of the call instruction.
    CallResult(Inst, int),
    /// `symbol_value` of the global value.
    Symbol(GlobalValue),
    /// A parameter of the block, with its index.
    Param(Block, int),
}

/// The block the builder inserts into, if any.
pub uninterp spec fn builder_position(b: FunctionBuilder) -> Option<Block>;

/// The blocks the builder created, with their status.
pub uninterp spec fn builder_blocks(b: FunctionBuilder) -> Map<Block, BlockStatus>;

/// The blocks whose predecessors are all declared.
pub uninterp spec fn builder_sealed(b: FunctionBuilder) -> Set<Block>;

/// The blocks some branch instruction targets.
pub uninterp spec fn builder_targets(b: FunctionBuilder) -> Set<Block>;

/// The values this library's calls created in the function being built (the results of the
/// instructions it emits and the parameters it appends to blocks), with what defines each. The
/// builder's variable bookkeeping creates values of its own (block parameters it may later
/// remove, placeholder constants), which are not among these.
pub uninterp spec fn builder_defs(b: FunctionBuilder) -> Map<Value, ValueDef>;

/// The values of the function being built, all of them valid operands, with their types.
pub uninterp spec fn builder_types(b: FunctionBuilder) -> Map<Value, Type>;

/// The values of the function being built.
pub open spec fn builder_values(b: FunctionBuilder) -> Set<Value> {
    builder_types(b).dom()
}

/// The declared variables, with their types.
pub uninterp spec fn builder_var_types(b: FunctionBuilder) -> Map<Variable, Type>;

/// The types of the parameters of the signature of the function being built.
pub uninterp spec fn builder_fn_params(b: FunctionBuilder) -> Seq<Type>;

/// The parameters this library appended to each block it created, in order.
pub uninterp spec fn builder_user_params(b: FunctionBuilder) -> Map<Block, Seq<Value>>;

/// The call instructions of the function being built, with their callee and arguments.
pub uninterp spec fn builder_calls(b: FunctionBuilder) -> Map<Inst, (FuncRef, Seq<Value>)>;

/// The blocks ended by a `jump`, with its target and arguments; the builder's variable
/// bookkeeping may append arguments.
pub uninterp spec fn builder_jumps(b: FunctionBuilder) -> Map<Block, (Block, Seq<Value>)>;

/// The blocks ended by a `brif`, with its condition and its two targets.
pub uninterp spec fn builder_branches(b: FunctionBuilder) -> Map<Block, (Value, Block, Block)>;

/// The blocks ended by a `return`, with the values returned.
pub uninterp spec fn builder_returns(b: FunctionBuilder) -> Map<Block, Seq<Value>>;

/// The value each variable holds at the end of each block, where it is known.
pub uninterp spec fn builder_vars(b: FunctionBuilder) -> Map<(Variable, Block), Value>;

/// The function references the function being built imports, with the module's function each
/// refers to.
pub uninterp spec fn builder_func_refs(b: FunctionBuilder) -> Map<FuncRef, FuncId>;

/// Whether a builder context holds no state of a translation.
pub uninterp spec fn context_is_empty(c: FunctionBuilderContext) -> bool;

/// The functions the module declares, by name.
pub uninterp spec fn module_functions(m: JITModule) -> Map<Seq<char>, FuncId>;

/// The data objects the module declares, by name.
pub uninterp spec fn module_data(m: JITModule) -> Map<Seq<char>, DataId>;

/// The number of parameters and of results of a signature.
pub uninterp spec fn signature_shape(s: Signature) -> (nat, nat);

/// The types of the parameters of a signature.
pub uninterp spec fn signature_params(s: Signature) -> Seq<Type>;

/// The types of the parameters of the signature of the function a context holds.
pub uninterp spec fn context_params(c: Context) -> Seq<Type>;

/// The number of parameters and of results of the signature of each function the module
/// declares.
pub uninterp spec fn module_signatures(m: JITModule) -> Map<FuncId, (nat, nat)>;

/// The linkage of the module's functions that are imported or exported.
pub uninterp spec fn module_linkage(m: JITModule) -> Map<FuncId, FnLinkage>;

/// What the builder holds, as far as it is modelled.
pub struct BuilderView {
    pub position: Option<Block>,
    pub blocks: Map<Block, BlockStatus>,
    pub sealed: Set<Block>,
    pub targets: Set<Block>,
    pub types: Map<Value, Type>,
    pub var_types: Map<Variable, Type>,
    pub fn_params: Seq<Type>,
    pub defs: Map<Value, ValueDef>,
    pub calls: Map<Inst, (FuncRef, Seq<Value>)>,
    pub jumps: Map<Block, (Block, Seq<Value>)>,
    pub branches: Map<Block, (Value, Block, Block)>,
    pub returns: Map<Block, Seq<Value>>,
    pub vars: Map<(Variable, Block), Value>,
    pub func_refs: Map<FuncRef, FuncId>,
}

impl BuilderView {
    /// The values of the function.
    pub open spec fn values(self) -> Set<Value> {
        self.types.dom()
    }
}

/// The jumps of `o` are all in `f`, each to the same block, with the same first arguments.
pub open spec fn jumps_grow(o: Map<Block, (Block, Seq<Value>)>, f: Map<Block, (Block, Seq<Value>)>) -> bool {
    forall|bl: Block| #[trigger] o.contains_key(bl) ==> f.contains_key(bl) && f[bl].0 == o[bl].0
        && o[bl].1.is_prefix_of(f[bl].1)
}

/// Values with their types and definitions, calls, branches and function references of `o` are all kept in `f`, and so are its
/// jumps, where arguments may have been appended.
pub open spec fn grows(o: BuilderView, f: BuilderView) -> bool {
    &&& o.types.submap_of(f.types)
    &&& f.var_types == o.var_types
    &&& f.fn_params == o.fn_params
    &&& o.defs.submap_of(f.defs)
    &&& o.calls.submap_of(f.calls)
    &&& jumps_grow(o.jumps, f.jumps)
    &&& o.branches.submap_of(f.branches)
    &&& o.returns.submap_of(f.returns)
    &&& o.func_refs.submap_of(f.func_refs)
}

/// Growth of the function is transitive.
pub broadcast proof fn lemma_grows_trans(a: BuilderView, b: BuilderView, c: BuilderView)
    requires
        grows(a, b),
        grows(b, c),
    ensures
        #![trigger grows(a, b), grows(b, c)]
        grows(a, c),
{
    broadcast use vstd::map_lib::lemma_submap_of_trans;

    assert forall|bl: Block| #[trigger] a.jumps.contains_key(bl) implies c.jumps.contains_key(bl) && c.jumps[bl].0
        == a.jumps[bl].0 && a.jumps[bl].1.is_prefix_of(c.jumps[bl].1) by {
        assert(b.jumps.contains_key(bl));
    }
}

pub open spec fn builder_state(b: FunctionBuilder) -> BuilderView {
    BuilderView {
        position: builder_position(b),
        blocks: builder_blocks(b),
        sealed: builder_sealed(b),
        targets: builder_targets(b),
        types: builder_types(b),
        var_types: builder_var_types(b),
        fn_params: builder_fn_params(b),
        defs: builder_defs(b),
        calls: builder_calls(b),
        jumps: builder_jumps(b),
        branches: builder_branches(b),
        returns: builder_returns(b),
        vars: builder_vars(b),
        func_refs: builder_func_refs(b),
    }
}

/// The builder stands in one of its blocks that is not filled yet, so instructions can be
/// added.
pub open spec fn insertable(v: BuilderView) -> bool {
    v.position matches Some(c) && v.blocks.contains_key(c) && v.blocks[c] != BlockStatus::Filled
}

/// The builder can switch to `block`: it is one of its blocks, not filled, and the block the
/// builder stands in, if any, holds no unterminated instructions.
pub open spec fn can_switch(v: BuilderView, block: Block) -> bool {
    &&& v.blocks.contains_key(block)
    &&& v.blocks[block] != BlockStatus::Filled
    &&& (v.position matches Some(c) ==> v.blocks.contains_key(c) && v.blocks[c] != BlockStatus::Partial)
}

/// `f` is `o` after one instruction was added to the current block, which it fills when
/// `terminator` holds; branches add `targets` to the targeted blocks.
pub open spec fn after_inst(o: BuilderView, f: BuilderView, terminator: bool, targets: Set<Block>) -> bool {
    &&& f.position == o.position
    &&& f.blocks == o.blocks.insert(
        o.position->0,
        if terminator { BlockStatus::Filled } else { BlockStatus::Partial },
    )
    &&& f.sealed == o.sealed
    &&& f.targets == o.targets.union(targets)
    &&& grows(o, f)
    &&& f.vars == o.vars
    &&& f.func_refs == o.func_refs
}

/// `f` is `o` with more values; nothing else changed.
pub open spec fn more_values(o: BuilderView, f: BuilderView) -> bool {
    &&& f.position == o.position
    &&& f.blocks == o.blocks
    &&& f.sealed == o.sealed
    &&& f.targets == o.targets
    &&& grows(o, f)
    &&& f.calls == o.calls
    &&& f.vars == o.vars
    &&& f.func_refs == o.func_refs
}

/// `f` is `o` after the builder's variable bookkeeping ran: some blocks without instructions
/// may have received placeholder instructions, and values of its own were added.
pub open spec fn after_ssa(o: BuilderView, f: BuilderView) -> bool {
    &&& f.position == o.position
    &&& f.blocks.dom() == o.blocks.dom()
    &&& forall|bl: Block| #[trigger] o.blocks.contains_key(bl) ==> f.blocks[bl] == o.blocks[bl] || (
        o.blocks[bl] == BlockStatus::Pristine && f.blocks[bl] == BlockStatus::Partial)
    &&& f.targets == o.targets
    &&& grows(o, f)
    &&& f.defs == o.defs
    &&& o.vars.submap_of(f.vars)
    &&& f.calls == o.calls
    &&& f.func_refs == o.func_refs
}

/// A message of the module's errors: each starts with an upper-case letter.
pub open spec fn generator_error(e: Seq<char>) -> bool {
    e.len() > 0 && 'A' <= e[0] && e[0] <= 'Z'
}

/// Every name the module declared in `o` it still declares in `f`, the same.
pub open spec fn module_grows(o: JITModule, f: JITModule) -> bool {
    &&& module_functions(o).submap_of(module_functions(f))
    &&& module_data(o).submap_of(module_data(f))
    &&& (linkage_complete(o) ==> linkage_complete(f))
}

/// The linkage of every function the module declares is known.
pub open spec fn linkage_complete(m: JITModule) -> bool {
    forall|n: Seq<char>| #[trigger] module_functions(m).contains_key(n) ==> module_linkage(m).contains_key(
        module_functions(m)[n],
    )
}

/// Every imported function is declared in the module.
pub open spec fn imports_declared(imported: Seq<(String, FuncId)>, m: JITModule) -> bool {
    forall|i: int| 0 <= i < imported.len() ==> module_functions(m).contains_value(#[trigger] imported[i].1)
}

/// Declarations survive the module's growth.
pub broadcast proof fn lemma_imports_declared_grow(imported: Seq<(String, FuncId)>, o: JITModule, f: JITModule)
    requires
        imports_declared(imported, o),
        module_grows(o, f),
    ensures
        #![trigger imports_declared(imported, o), module_grows(o, f)]
        imports_declared(imported, f),
{
    assert forall|i: int| 0 <= i < imported.len() implies module_functions(f).contains_value(
        #[trigger] imported[i].1,
    ) by {
        assert(module_functions(o).contains_value(imported[i].1));
        let n = choose|n: Seq<char>| #[trigger] module_functions(o).dom().contains(n) && module_functions(o)[n]
            == imported[i].1;
        assert(module_functions(f).dom().contains(n));
    }
}

/// Growth is transitive.
pub broadcast proof fn lemma_module_grows_trans(a: JITModule, b: JITModule, c: JITModule)
    requires
        module_grows(a, b),
        module_grows(b, c),
    ensures
        #![trigger module_grows(a, b), module_grows(b, c)]
        module_grows(a, c),
{
    broadcast use vstd::map_lib::lemma_submap_of_trans;

}

/// `Module::target_config` of a JIT module.
#[verifier::external_body]
pub(crate) fn target_config(m: &JITModule) -> TargetFrontendConfig {
    m.target_config()
}

/// `TargetFrontendConfig::pointer_type`.
#[verifier::external_body]
pub(crate) fn pointer_type(cfg: TargetFrontendConfig) -> Type {
    cfg.pointer_type()
}

/// `Module::make_signature`: an empty signature in the module's calling convention.
#[verifier::external_body]
pub(crate) fn make_signature(m: &JITModule) -> (s: Signature)
    ensures
        signature_shape(s) == (0nat, 0nat),
        signature_params(s) == Seq::<Type>::empty(),
{
    m.make_signature()
}

/// `Module::make_context`: a context whose function's signature has no parameter.
#[verifier::external_body]
pub(crate) fn make_context(m: &JITModule) -> (c: Context)
    ensures
        context_params(c) == Seq::<Type>::empty(),
{
    m.make_context()
}

/// `Module::clear_context`: the context's function is reset; its signature has no parameter.
#[verifier::external_body]
pub(crate) fn clear_context(m: &JITModule, ctx: &mut Context)
    ensures
        context_params(*final(ctx)) == Seq::<Type>::empty(),
{
    m.clear_context(ctx)
}

/// A signature in the module's calling convention with `n` parameters and one result, all of
/// type `word`.
pub(crate) fn word_signature(m: &JITModule, word: Type, n: usize) -> (s: Signature)
    ensures
        signature_shape(s) == (n as nat, 1nat),
{
    let mut sig = make_signature(m);
    let mut k: usize = 0;
    while k < n
        invariant
            k <= n,
            signature_shape(sig) == (k as nat, 0nat),
        decreases n - k,
    {
        add_param(&mut sig, word);
        k = k + 1;
    }
    add_return(&mut sig, word);
    sig
}

/// `AbiParam::new`, appended to the parameters of `sig`.
#[verifier::external_body]
pub(crate) fn add_param(sig: &mut Signature, ty: Type)
    ensures
        signature_shape(*final(sig)) == (signature_shape(*old(sig)).0 + 1, signature_shape(*old(sig)).1),
        signature_params(*final(sig)) == signature_params(*old(sig)).push(ty),
{
    sig.params.push(AbiParam::new(ty))
}

/// `AbiParam::new`, appended to the results of `sig`.
#[verifier::external_body]
pub(crate) fn add_return(sig: &mut Signature, ty: Type)
    ensures
        signature_shape(*final(sig)) == (signature_shape(*old(sig)).0, signature_shape(*old(sig)).1 + 1),
        signature_params(*final(sig)) == signature_params(*old(sig)),
{
    sig.returns.push(AbiParam::new(ty))
}

/// The signature of the function a context compiles.
#[verifier::external_body]
pub(crate) fn context_signature(ctx: &mut Context) -> (r: &mut Signature)
    ensures
        signature_params(*r) == context_params(*old(ctx)),
        context_params(*final(ctx)) == signature_params(*final(r)),
{
    &mut ctx.func.signature
}

/// `Module::declare_function`; the error is rendered as text, which starts with an upper-case
/// letter. On success the name is declared
/// as the returned function: a new name with the given linkage; a name already declared keeps
/// its identifier, and its linkage becomes exported when either linkage is. On failure (the
/// name is a data object, or the signatures differ) the names are unchanged; the linkage of the
/// existing function may have merged already, which is not stated.
#[verifier::external_body]
pub(crate) fn declare_function(m: &mut JITModule, name: &str, linkage: FnLinkage, sig: &Signature) -> (r: Result<FuncId, String>)
    ensures
        r matches Err(e) ==> generator_error(e@),
        !module_functions(*old(m)).contains_key(name@) && !module_data(*old(m)).contains_key(name@) ==> r is Ok,
        module_data(*old(m)).contains_key(name@) ==> r is Err,
        r matches Ok(id) ==> module_functions(*final(m)) == module_functions(*old(m)).insert(name@, id),
        r matches Ok(id) ==> (module_functions(*old(m)).contains_key(name@) ==> id == module_functions(*old(m))[name@]),
        r is Err ==> module_functions(*final(m)) == module_functions(*old(m)),
        module_data(*final(m)) == module_data(*old(m)),
        r matches Ok(id) ==> module_signatures(*final(m)) == module_signatures(*old(m)).insert(id, signature_shape(*sig)),
        r is Err ==> module_signatures(*final(m)) == module_signatures(*old(m)),
        r is Err ==> module_linkage(*final(m)).dom() == module_linkage(*old(m)).dom(),
        r matches Ok(id) ==> (!module_functions(*old(m)).contains_key(name@) ==> module_linkage(*final(m))
            == module_linkage(*old(m)).insert(id, linkage)),
        r matches Ok(id) ==> (module_linkage(*old(m)).contains_key(id) ==> module_linkage(*final(m))
            == module_linkage(*old(m)).insert(
            id,
            if module_linkage(*old(m))[id] == FnLinkage::Export { FnLinkage::Export } else { linkage },
        )),
{
    let linkage = match linkage {
        FnLinkage::Import => Linkage::Import,
        FnLinkage::Export => Linkage::Export,
    };
    m.declare_function(name, linkage, sig).map_err(|e| e.to_string())
}

/// `Module::declare_data`; the error is rendered as text. The JIT supports no thread-local
/// data. On success the name is declared as the returned data object, keeping its identifier
/// if it was declared; on failure (the name is a function) nothing changes.
#[verifier::external_body]
pub(crate) fn declare_data(m: &mut JITModule, name: &str, linkage: FnLinkage, writable: bool, tls: bool) -> (r: Result<DataId, String>)
    requires
        !tls,
    ensures
        r matches Ok(id) ==> module_data(*final(m)) == module_data(*old(m)).insert(name@, id),
        r matches Ok(id) ==> (module_data(*old(m)).contains_key(name@) ==> id == module_data(*old(m))[name@]),
        r is Err ==> module_data(*final(m)) == module_data(*old(m)),
        module_functions(*final(m)) == module_functions(*old(m)),
        module_linkage(*final(m)) == module_linkage(*old(m)),
        module_signatures(*final(m)) == module_signatures(*old(m)),
{
    let linkage = match linkage {
        FnLinkage::Import => Linkage::Import,
        FnLinkage::Export => Linkage::Export,
    };
    m.declare_data(name, linkage, writable, tls).map_err(|e| e.to_string())
}

/// `Module::declare_func_in_func`: imports the module's function `id` into the function `b`
/// builds.
#[verifier::external_body]
pub(crate) fn declare_func_in_func(m: &mut JITModule, id: FuncId, b: &mut FunctionBuilder) -> (r: FuncRef)
    requires
        module_functions(*old(m)).contains_value(id),
    ensures
        module_functions(*final(m)) == module_functions(*old(m)),
        module_data(*final(m)) == module_data(*old(m)),
        module_linkage(*final(m)) == module_linkage(*old(m)),
        module_signatures(*final(m)) == module_signatures(*old(m)),
        !builder_func_refs(*old(b)).contains_key(r),
        builder_func_refs(*final(b)).contains_key(r),
        builder_func_refs(*final(b))[r] == id,
        builder_state(*final(b)) == (BuilderView {
            func_refs: builder_state(*old(b)).func_refs.insert(r, id),
            ..builder_state(*old(b))
        }),
{
    m.declare_func_in_func(id, b.func)
}

/// `Module::declare_data_in_func`: makes the module's data object `id` a global value of the
/// function `b` builds.
#[verifier::external_body]
pub(crate) fn declare_data_in_func(m: &JITModule, id: DataId, b: &mut FunctionBuilder) -> (r: GlobalValue)
    requires
        module_data(*m).contains_value(id),
    ensures
        builder_state(*final(b)) == builder_state(*old(b)),
{
    m.declare_data_in_func(id, b.func)
}

/// `Module::define_function`: compiles the function of `ctx` as the module's function `id`; the
/// error is rendered as text, which starts with an upper-case letter.
#[verifier::external_body]
pub(crate) fn define_function(m: &mut JITModule, id: FuncId, ctx: &mut Context) -> (r: Result<(), String>)
    requires
        module_functions(*old(m)).contains_value(id),
    ensures
        r matches Err(e) ==> generator_error(e@),
        module_functions(*final(m)) == module_functions(*old(m)),
        module_data(*final(m)) == module_data(*old(m)),
        module_linkage(*final(m)) == module_linkage(*old(m)),
        module_signatures(*final(m)) == module_signatures(*old(m)),
{
    m.define_function(id, ctx).map_err(|e| e.to_string())
}

/// `FunctionBuilderContext::new`.
#[verifier::external_body]
pub(crate) fn new_builder_context() -> (c: FunctionBuilderContext)
    ensures
        context_is_empty(c),
{
    FunctionBuilderContext::new()
}

/// `FunctionBuilder::new`, on the function of the context `pair.0` with the builder context
/// `pair.1`: it stands nowhere and has created no block.
#[verifier::external_body]
pub(crate) fn new_builder(pair: &mut (Context, FunctionBuilderContext)) -> (fb: FunctionBuilder)
    requires
        context_is_empty(old(pair).1),
    ensures
        builder_position(fb) == None::<Block>,
        builder_blocks(fb).dom() == Set::<Block>::empty(),
        builder_sealed(fb) == Set::<Block>::empty(),
        builder_var_types(fb).dom() == Set::<Variable>::empty(),
        builder_fn_params(fb) == context_params(old(pair).0),
{
    FunctionBuilder::new(&mut pair.0.func, &mut pair.1)
}

/// `FunctionBuilder::create_block`: a new block, without instructions and without
/// predecessors.
#[verifier::external_body]
pub(crate) fn create_block(b: &mut FunctionBuilder) -> (r: Block)
    ensures
        !builder_blocks(*old(b)).contains_key(r),
        !builder_targets(*old(b)).contains(r),
        !builder_sealed(*old(b)).contains(r),
        builder_state(*final(b)) == (BuilderView {
            blocks: builder_state(*old(b)).blocks.insert(r, BlockStatus::Pristine),
            ..builder_state(*old(b))
        }),
        builder_user_params(*final(b)) == builder_user_params(*old(b)).insert(r, Seq::<Value>::empty()),
{
    b.create_block()
}

/// `FunctionBuilder::append_block_params_for_function_params`, on a block without instructions
/// and without predecessors.
#[verifier::external_body]
pub(crate) fn append_block_params_for_function_params(b: &mut FunctionBuilder, block: Block)
    requires
        builder_blocks(*old(b)).contains_key(block),
        builder_blocks(*old(b))[block] == BlockStatus::Pristine,
        !builder_targets(*old(b)).contains(block),
    ensures
        more_values(builder_state(*old(b)), builder_state(*final(b))),
        forall|v: Value| #[trigger] builder_defs(*final(b)).contains_key(v) && !builder_defs(*old(b)).contains_key(v)
            ==> builder_defs(*final(b))[v] is Param && builder_defs(*final(b))[v]->Param_0 == block
            && builder_values(*final(b)).contains(v),
        builder_user_params(*old(b)).contains_key(block) ==> ({
            let added = builder_user_params(*final(b))[block].skip(builder_user_params(*old(b))[block].len() as int);
            &&& builder_user_params(*final(b)).contains_key(block)
            &&& builder_user_params(*old(b))[block].is_prefix_of(builder_user_params(*final(b))[block])
            &&& added.len() == builder_fn_params(*old(b)).len()
            &&& forall|i: int| 0 <= i < added.len() ==> builder_types(*final(b)).contains_key(#[trigger] added[i])
                && builder_types(*final(b))[added[i]] == builder_fn_params(*old(b))[i]
        }),
{
    b.append_block_params_for_function_params(block)
}

/// `FunctionBuilder::append_block_param`, on a block without instructions.
#[verifier::external_body]
pub(crate) fn append_block_param(b: &mut FunctionBuilder, block: Block, ty: Type) -> (v: Value)
    requires
        builder_blocks(*old(b)).contains_key(block),
        builder_blocks(*old(b))[block] == BlockStatus::Pristine,
    ensures
        more_values(builder_state(*old(b)), builder_state(*final(b))),
        !builder_defs(*old(b)).contains_key(v),
        builder_user_params(*old(b)).contains_key(block) ==> {
            &&& builder_defs(*final(b)) == builder_defs(*old(b)).insert(
                v,
                ValueDef::Param(block, builder_user_params(*old(b))[block].len() as int),
            )
            &&& builder_user_params(*final(b)) == builder_user_params(*old(b)).insert(
                block,
                builder_user_params(*old(b))[block].push(v),
            )
        },
        builder_defs(*final(b)).contains_key(v),
        builder_defs(*final(b))[v] is Param && builder_defs(*final(b))[v]->Param_0 == block,
        builder_types(*final(b)) == builder_types(*old(b)).insert(v, ty),
{
    b.append_block_param(block, ty)
}

/// `FunctionBuilder::block_params`, copied.
#[verifier::external_body]
pub(crate) fn block_params(b: &FunctionBuilder, block: Block) -> (vs: Vec<Value>)
    requires
        builder_blocks(*b).contains_key(block),
    ensures
        builder_user_params(*b).contains_key(block) ==> builder_user_params(*b)[block].is_prefix_of(vs@),
        forall|i: int| 0 <= i < vs@.len() ==> builder_values(*b).contains(#[trigger] vs@[i]) && (builder_defs(
            *b,
        ).contains_key(vs@[i]) ==> builder_defs(*b)[vs@[i]] == ValueDef::Param(block, i)),
{
    b.block_params(block).to_vec()
}

/// `FunctionBuilder::inst_results`, copied.
#[verifier::external_body]
pub(crate) fn inst_results(b: &FunctionBuilder, inst: Inst) -> (vs: Vec<Value>)
    requires
        builder_calls(*b).contains_key(inst),
    ensures
        forall|i: int| 0 <= i < vs@.len() ==> builder_values(*b).contains(#[trigger] vs@[i]) && builder_defs(
            *b,
        ).contains_key(vs@[i]) && builder_defs(*b)[vs@[i]] == ValueDef::CallResult(inst, i),
{
    b.inst_results(inst).to_vec()
}

/// `FunctionBuilder::switch_to_block`.
#[verifier::external_body]
pub(crate) fn switch_to_block(b: &mut FunctionBuilder, block: Block)
    requires
        can_switch(builder_state(*old(b)), block),
    ensures
        builder_state(*final(b)) == (BuilderView { position: Some(block), ..builder_state(*old(b)) }),
{
    b.switch_to_block(block)
}

/// `FunctionBuilder::seal_block`, on a block not sealed yet.
#[verifier::external_body]
pub(crate) fn seal_block(b: &mut FunctionBuilder, block: Block)
    requires
        builder_blocks(*old(b)).contains_key(block),
        !builder_sealed(*old(b)).contains(block),
    ensures
        after_ssa(builder_state(*old(b)), builder_state(*final(b))),
        builder_sealed(*final(b)) == builder_sealed(*old(b)).insert(block),
{
    b.seal_block(block)
}

/// `FunctionBuilder::declare_var`: a new variable of type `ty`.
#[verifier::external_body]
pub(crate) fn declare_var(b: &mut FunctionBuilder, ty: Type) -> (v: Variable)
    ensures
        !builder_var_types(*old(b)).contains_key(v),
        builder_state(*final(b)) == (BuilderView {
            var_types: builder_var_types(*old(b)).insert(v, ty),
            ..builder_state(*old(b))
        }),
{
    b.declare_var(ty)
}

/// `FunctionBuilder::try_def_var`: whether the definition was accepted (the variable is
/// declared with the value's type).
#[verifier::external_body]
pub(crate) fn try_def_var(b: &mut FunctionBuilder, var: Variable, val: Value) -> (ok: bool)
    requires
        builder_position(*old(b)) is Some,
        builder_values(*old(b)).contains(val),
    ensures
        ok ==> builder_state(*final(b)) == (BuilderView {
            vars: builder_vars(*old(b)).insert((var, builder_position(*old(b))->0), val),
            ..builder_state(*old(b))
        }),
        !ok ==> builder_state(*final(b)) == builder_state(*old(b)),
        ok == (builder_var_types(*old(b)).contains_key(var) && builder_var_types(*old(b))[var] == builder_types(
            *old(b),
        )[val]),
{
    b.try_def_var(var, val).is_ok()
}

/// `FunctionBuilder::try_use_var`: the value of `var`, `None` if it is not declared.
#[verifier::external_body]
pub(crate) fn try_use_var(b: &mut FunctionBuilder, var: Variable) -> (v: Option<Value>)
    requires
        insertable(builder_state(*old(b))),
    ensures
        after_ssa(builder_state(*old(b)), builder_state(*final(b))),
        builder_sealed(*final(b)) == builder_sealed(*old(b)),
        v is Some <==> builder_var_types(*old(b)).contains_key(var),
        v matches Some(x) ==> builder_values(*final(b)).contains(x) && builder_types(*final(b))[x]
            == builder_var_types(*old(b))[var],
        v matches Some(x) ==> (builder_vars(*old(b)).contains_key((var, builder_position(*old(b))->0)) ==> x
            == builder_vars(*old(b))[(var, builder_position(*old(b))->0)]),
{
    b.try_use_var(var).ok()
}

/// `FunctionBuilder::finalize`, once every block that holds instructions is sealed and
/// filled.
#[verifier::external_body]
pub(crate) fn finalize(b: FunctionBuilder, cfg: TargetFrontendConfig)
    requires
        forall|bl: Block| #[trigger] builder_blocks(b).contains_key(bl) ==> builder_blocks(b)[bl]
            == BlockStatus::Pristine || (builder_sealed(b).contains(bl) && builder_blocks(b)[bl]
            == BlockStatus::Filled),
{
    b.finalize(cfg)
}

/// `iconst`.
#[verifier::external_body]
pub(crate) fn ins_iconst(b: &mut FunctionBuilder, ty: Type, imm: i64) -> (v: Value)
    requires
        insertable(builder_state(*old(b))),
    ensures
        after_inst(builder_state(*old(b)), builder_state(*final(b)), false, Set::empty()),
        !builder_defs(*old(b)).contains_key(v),
        builder_defs(*final(b)) == builder_defs(*old(b)).insert(v, ValueDef::Const(imm as int)),
        builder_types(*final(b)) == builder_types(*old(b)).insert(v, ty),
        builder_calls(*final(b)) == builder_calls(*old(b)),
{
    b.ins().iconst(ty, imm)
}

/// `iadd`.
#[verifier::external_body]
pub(crate) fn ins_iadd(b: &mut FunctionBuilder, x: Value, y: Value) -> (v: Value)
    requires
        insertable(builder_state(*old(b))),
        builder_values(*old(b)).contains(x),
        builder_values(*old(b)).contains(y),
    ensures
        after_inst(builder_state(*old(b)), builder_state(*final(b)), false, Set::empty()),
        !builder_defs(*old(b)).contains_key(v),
        builder_defs(*final(b)) == builder_defs(*old(b)).insert(v, ValueDef::Binary(BinOp::Add, x, y)),
        builder_types(*final(b)) == builder_types(*old(b)).insert(v, builder_types(*old(b))[x]),
        builder_calls(*final(b)) == builder_calls(*old(b)),
{
    b.ins().iadd(x, y)
}

/// `isub`.
#[verifier::external_body]
pub(crate) fn ins_isub(b: &mut FunctionBuilder, x: Value, y: Value) -> (v: Value)
    requires
        insertable(builder_state(*old(b))),
        builder_values(*old(b)).contains(x),
        builder_values(*old(b)).contains(y),
    ensures
        after_inst(builder_state(*old(b)), builder_state(*final(b)), false, Set::empty()),
        !builder_defs(*old(b)).contains_key(v),
        builder_defs(*final(b)) == builder_defs(*old(b)).insert(v, ValueDef::Binary(BinOp::Sub, x, y)),
        builder_types(*final(b)) == builder_types(*old(b)).insert(v, builder_types(*old(b))[x]),
        builder_calls(*final(b)) == builder_calls(*old(b)),
{
    b.ins().isub(x, y)
}

/// `imul`.
#[verifier::external_body]
pub(crate) fn ins_imul(b: &mut FunctionBuilder, x: Value, y: Value) -> (v: Value)
    requires
        insertable(builder_state(*old(b))),
        builder_values(*old(b)).contains(x),
        builder_values(*old(b)).contains(y),
    ensures
        after_inst(builder_state(*old(b)), builder_state(*final(b)), false, Set::empty()),
        !builder_defs(*old(b)).contains_key(v),
        builder_defs(*final(b)) == builder_defs(*old(b)).insert(v, ValueDef::Binary(BinOp::Mul, x, y)),
        builder_types(*final(b)) == builder_types(*old(b)).insert(v, builder_types(*old(b))[x]),
        builder_calls(*final(b)) == builder_calls(*old(b)),
{
    b.ins().imul(x, y)
}

/// `udiv`.
#[verifier::external_body]
pub(crate) fn ins_udiv(b: &mut FunctionBuilder, x: Value, y: Value) -> (v: Value)
    requires
        insertable(builder_state(*old(b))),
        builder_values(*old(b)).contains(x),
        builder_values(*old(b)).contains(y),
    ensures
        after_inst(builder_state(*old(b)), builder_state(*final(b)), false, Set::empty()),
        !builder_defs(*old(b)).contains_key(v),
        builder_defs(*final(b)) == builder_defs(*old(b)).insert(v, ValueDef::Binary(BinOp::UDiv, x, y)),
        builder_types(*final(b)) == builder_types(*old(b)).insert(v, builder_types(*old(b))[x]),
        builder_calls(*final(b)) == builder_calls(*old(b)),
{
    b.ins().udiv(x, y)
}

/// `band`.
#[verifier::external_body]
pub(crate) fn ins_band(b: &mut FunctionBuilder, x: Value, y: Value) -> (v: Value)
    requires
        insertable(builder_state(*old(b))),
        builder_values(*old(b)).contains(x),
        builder_values(*old(b)).contains(y),
    ensures
        after_inst(builder_state(*old(b)), builder_state(*final(b)), false, Set::empty()),
        !builder_defs(*old(b)).contains_key(v),
        builder_defs(*final(b)) == builder_defs(*old(b)).insert(v, ValueDef::Binary(BinOp::And, x, y)),
        builder_types(*final(b)) == builder_types(*old(b)).insert(v, builder_types(*old(b))[x]),
        builder_calls(*final(b)) == builder_calls(*old(b)),
{
    b.ins().band(x, y)
}

/// `bor`.
#[verifier::external_body]
pub(crate) fn ins_bor(b: &mut FunctionBuilder, x: Value, y: Value) -> (v: Value)
    requires
        insertable(builder_state(*old(b))),
        builder_values(*old(b)).contains(x),
        builder_values(*old(b)).contains(y),
    ensures
        after_inst(builder_state(*old(b)), builder_state(*final(b)), false, Set::empty()),
        !builder_defs(*old(b)).contains_key(v),
        builder_defs(*final(b)) == builder_defs(*old(b)).insert(v, ValueDef::Binary(BinOp::Or, x, y)),
        builder_types(*final(b)) == builder_types(*old(b)).insert(v, builder_types(*old(b))[x]),
        builder_calls(*final(b)) == builder_calls(*old(b)),
{
    b.ins().bor(x, y)
}

/// `icmp` with the condition `cond`.
#[verifier::external_body]
pub(crate) fn ins_compare(b: &mut FunctionBuilder, cond: IntCond, x: Value, y: Value) -> (v: Value)
    requires
        insertable(builder_state(*old(b))),
        builder_values(*old(b)).contains(x),
        builder_values(*old(b)).contains(y),
    ensures
        after_inst(builder_state(*old(b)), builder_state(*final(b)), false, Set::empty()),
        !builder_defs(*old(b)).contains_key(v),
        builder_defs(*final(b)) == builder_defs(*old(b)).insert(v, ValueDef::Compare(cond, x, y)),
        builder_types(*final(b)) == builder_types(*old(b)).insert(v, builder_types(*final(b))[v]),
        builder_calls(*final(b)) == builder_calls(*old(b)),
{
    let cc = match cond {
        IntCond::Equal => IntCC::Equal,
        IntCond::NotEqual => IntCC::NotEqual,
        IntCond::SignedLessThan => IntCC::SignedLessThan,
        IntCond::SignedLessThanOrEqual => IntCC::SignedLessThanOrEqual,
        IntCond::SignedGreaterThan => IntCC::SignedGreaterThan,
        IntCond::SignedGreaterThanOrEqual => IntCC::SignedGreaterThanOrEqual,
    };
    b.ins().icmp(cc, x, y)
}

/// `brif`: to `then_block` with `then_args` when `c` is not zero, else to `else_block` with
/// `else_args`. It ends the current block; both targets must still accept predecessors.
#[verifier::external_body]
pub(crate) fn ins_brif(
    b: &mut FunctionBuilder,
    c: Value,
    then_block: Block,
    then_args: &Vec<Value>,
    else_block: Block,
    else_args: &Vec<Value>,
)
    requires
        insertable(builder_state(*old(b))),
        builder_values(*old(b)).contains(c),
        builder_blocks(*old(b)).contains_key(then_block),
        builder_blocks(*old(b)).contains_key(else_block),
        !builder_sealed(*old(b)).contains(then_block),
        !builder_sealed(*old(b)).contains(else_block),
        forall|i: int| 0 <= i < then_args@.len() ==> builder_values(*old(b)).contains(#[trigger] then_args@[i]),
        forall|i: int| 0 <= i < else_args@.len() ==> builder_values(*old(b)).contains(#[trigger] else_args@[i]),
    ensures
        after_inst(
            builder_state(*old(b)),
            builder_state(*final(b)),
            true,
            set![then_block, else_block],
        ),
        builder_defs(*final(b)) == builder_defs(*old(b)),
        builder_calls(*final(b)) == builder_calls(*old(b)),
        !builder_branches(*old(b)).contains_key(builder_position(*old(b))->0),
        builder_branches(*final(b)) == builder_branches(*old(b)).insert(builder_position(*old(b))->0, (c, then_block, else_block)),
{
    let then_args: Vec<BlockArg> = then_args.iter().map(|v| BlockArg::Value(*v)).collect();
    let else_args: Vec<BlockArg> = else_args.iter().map(|v| BlockArg::Value(*v)).collect();
    b.ins().brif(c, then_block, &then_args, else_block, &else_args);
}

/// `jump` to `block` with the arguments `args`. It ends the current block; the target must
/// still accept predecessors.
#[verifier::external_body]
pub(crate) fn ins_jump(b: &mut FunctionBuilder, block: Block, args: &Vec<Value>)
    requires
        insertable(builder_state(*old(b))),
        builder_blocks(*old(b)).contains_key(block),
        !builder_sealed(*old(b)).contains(block),
        forall|i: int| 0 <= i < args@.len() ==> builder_values(*old(b)).contains(#[trigger] args@[i]),
    ensures
        after_inst(builder_state(*old(b)), builder_state(*final(b)), true, set![block]),
        builder_defs(*final(b)) == builder_defs(*old(b)),
        builder_calls(*final(b)) == builder_calls(*old(b)),
        !builder_jumps(*old(b)).contains_key(builder_position(*old(b))->0),
        builder_jumps(*final(b)) == builder_jumps(*old(b)).insert(builder_position(*old(b))->0, (block, args@)),
{
    let args: Vec<BlockArg> = args.iter().map(|v| BlockArg::Value(*v)).collect();
    b.ins().jump(block, &args);
}

/// `return_` with the values `vals`. It ends the current block.
#[verifier::external_body]
pub(crate) fn ins_return(b: &mut FunctionBuilder, vals: &Vec<Value>)
    requires
        insertable(builder_state(*old(b))),
        forall|i: int| 0 <= i < vals@.len() ==> builder_values(*old(b)).contains(#[trigger] vals@[i]),
    ensures
        after_inst(builder_state(*old(b)), builder_state(*final(b)), true, Set::empty()),
        builder_defs(*final(b)) == builder_defs(*old(b)),
        builder_calls(*final(b)) == builder_calls(*old(b)),
        !builder_returns(*old(b)).contains_key(builder_position(*old(b))->0),
        builder_returns(*final(b)) == builder_returns(*old(b)).insert(builder_position(*old(b))->0, vals@),
{
    b.ins().return_(vals);
}

/// `call` of `callee` with the arguments `args`.
#[verifier::external_body]
pub(crate) fn ins_call(b: &mut FunctionBuilder, callee: FuncRef, args: &Vec<Value>) -> (inst: Inst)
    requires
        insertable(builder_state(*old(b))),
        builder_func_refs(*old(b)).contains_key(callee),
        forall|i: int| 0 <= i < args@.len() ==> builder_values(*old(b)).contains(#[trigger] args@[i]),
    ensures
        after_inst(builder_state(*old(b)), builder_state(*final(b)), false, Set::empty()),
        !builder_calls(*old(b)).contains_key(inst),
        builder_calls(*final(b)) == builder_calls(*old(b)).insert(inst, (callee, args@)),
        builder_defs(*old(b)).submap_of(builder_defs(*final(b))),
        forall|v: Value| #[trigger] builder_defs(*final(b)).contains_key(v) && !builder_defs(*old(b)).contains_key(v)
            ==> builder_defs(*final(b))[v] is CallResult && builder_defs(*final(b))[v]->CallResult_0 == inst,
{
    b.ins().call(callee, args)
}

/// `symbol_value` of the global value `gv`.
#[verifier::external_body]
pub(crate) fn ins_symbol_value(b: &mut FunctionBuilder, ty: Type, gv: GlobalValue) -> (v: Value)
    requires
        insertable(builder_state(*old(b))),
    ensures
        after_inst(builder_state(*old(b)), builder_state(*final(b)), false, Set::empty()),
        !builder_defs(*old(b)).contains_key(v),
        builder_defs(*final(b)) == builder_defs(*old(b)).insert(v, ValueDef::Symbol(gv)),
        builder_types(*final(b)) == builder_types(*old(b)).insert(v, ty),
        builder_calls(*final(b)) == builder_calls(*old(b)),
{
    b.ins().symbol_value(ty, gv)
}

} // verus!
