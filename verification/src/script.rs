//! Mod-authored behaviour: pricing written in the Rhai scripting language.
//!
//! A script runs on an engine that has been given no clock, no files and no output, and
//! only packages whose functions all come back and run nothing but themselves. The engine
//! stops a script after a fixed number of operations. It has no anonymous functions, so no
//! value is shared and none can reach itself; it does not let a function be bound to copies
//! of itself, a text be run as a script of its own, nor a text, an array or a map grow past
//! a fixed size. So a broken or runaway script can neither reach anything ambient nor crash
//! or hang a tick.

use rhai::packages::Package;
use std::sync::Arc;
use vstd::prelude::*;
use vstd::string::StringExecFns;

use crate::bits::Bits;
use crate::ids::{Money, Quantity};

verus! {

/// The most operations one script call may execute before it is aborted.
pub const MAX_OPERATIONS: u64 = 100_000;

/// The most bytes of a text that a script may hold in one value.
pub const MAX_TEXT: usize = 10_000;

/// The most elements of arrays that a script may hold in one value, those of nested ones
/// counted in.
pub const MAX_ELEMENTS: usize = 1_000;

/// The most entries of maps that a script may hold in one value, those of nested ones
/// counted in.
pub const MAX_ENTRIES: usize = 250;

/// The keyword that binds arguments to a function value. A function bound to itself doubles
/// in size with every use of it, and no cap counts that.
pub const BINDING: &'static str = "curry";

/// The keyword that runs a text as a script. What stops a script inside it can be caught
/// outside, caps included, and its nesting is not counted as that of calls is.
pub const EVALUATION: &'static str = "eval";

/// The function a pricing script defines.
pub const PRICE_FN: &'static str = "price";

/// The scripting engine.
#[verifier::external_type_specification]
#[verifier::external_body]
pub struct ExEngine(rhai::Engine);

/// A compiled script.
#[verifier::external_type_specification]
#[verifier::external_body]
pub struct ExAst(rhai::AST);

/// Why a script did not compile.
#[verifier::external_type_specification]
#[verifier::external_body]
pub struct ExParseError(rhai::ParseError);

/// Why a script call failed.
#[verifier::external_type_specification]
#[verifier::external_body]
pub struct ExEvalAltResult(rhai::EvalAltResult);

/// Whether an engine may be what `rhai::Engine::new_raw` makes.
pub uninterp spec fn raw_engine(engine: rhai::Engine) -> bool;

/// Whether `after` may be what the package of arithmetic on numbers turns `before` into.
pub uninterp spec fn arithmetic_added(before: rhai::Engine, after: rhai::Engine) -> bool;

/// Whether `after` may be what the package of the conversion of values to texts turns `before` into.
pub uninterp spec fn strings_added(before: rhai::Engine, after: rhai::Engine) -> bool;

/// Whether `after` may be what the package of ranges, and iteration over them and over texts and arrays turns `before` into.
pub uninterp spec fn iterators_added(before: rhai::Engine, after: rhai::Engine) -> bool;

/// Whether `after` may be what the package of the names of function values turns `before` into.
pub uninterp spec fn functions_added(before: rhai::Engine, after: rhai::Engine) -> bool;

/// Whether `after` may be what the package of the bits of integers turns `before` into.
pub uninterp spec fn bits_added(before: rhai::Engine, after: rhai::Engine) -> bool;

/// Whether `after` may be what the package of comparisons and boolean operators turns `before` into.
pub uninterp spec fn logic_added(before: rhai::Engine, after: rhai::Engine) -> bool;

/// Whether `after` may be what the package of mathematical functions and the conversion of numbers turns `before` into.
pub uninterp spec fn math_added(before: rhai::Engine, after: rhai::Engine) -> bool;

/// Whether `after` may be what the package of byte arrays turns `before` into.
pub uninterp spec fn blobs_added(before: rhai::Engine, after: rhai::Engine) -> bool;

/// Whether `after` may be what allowing or forbidding anonymous functions turns `before`
/// into.
pub uninterp spec fn anonymous_set(before: rhai::Engine, allowed: bool, after: rhai::Engine) -> bool;

/// Whether `after` may be what this cap on operations turns `before` into.
pub uninterp spec fn capped(before: rhai::Engine, operations: u64, after: rhai::Engine) -> bool;

/// Whether `after` may be what this cap on texts turns `before` into.
pub uninterp spec fn texts_capped(before: rhai::Engine, size: usize, after: rhai::Engine) -> bool;

/// Whether `after` may be what this cap on arrays turns `before` into.
pub uninterp spec fn arrays_capped(before: rhai::Engine, size: usize, after: rhai::Engine) -> bool;

/// Whether `after` may be what this cap on maps turns `before` into.
pub uninterp spec fn maps_capped(before: rhai::Engine, size: usize, after: rhai::Engine) -> bool;

/// Whether `after` may be what taking this symbol away turns `before` into.
pub uninterp spec fn symbol_barred(
    before: rhai::Engine,
    symbol: Seq<char>,
    after: rhai::Engine,
) -> bool;

/// Whether parsing a text on an engine may come to `r`.
pub uninterp spec fn may_parse(
    engine: rhai::Engine,
    source: Seq<char>,
    r: Result<rhai::AST, rhai::ParseError>,
) -> bool;

/// The text of a parse error.
pub uninterp spec fn error_text(error: rhai::ParseError) -> Seq<char>;

/// Whether calling a function of a script with these arguments may come to `r`.
pub uninterp spec fn may_return(
    engine: rhai::Engine,
    ast: rhai::AST,
    function: Seq<char>,
    base_price: Money,
    stock: i64,
    equilibrium: i64,
    elasticity: Bits,
    r: Result<Money, Box<rhai::EvalAltResult>>,
) -> bool;

/// An engine without any function: `rhai::Engine::new_raw`. It resolves no imports and
/// prints nowhere. Claimed: only that the engine came from that call.
#[verifier::external_body]
fn bare_engine() -> (engine: rhai::Engine)
    ensures
        raw_engine(engine),
{
    rhai::Engine::new_raw()
}

/// Cap the operations of a call: `rhai::Engine::set_max_operations`. Claimed: only that
/// this cap was set on that engine.
#[verifier::external_body]
fn cap_operations(engine: &mut rhai::Engine, operations: u64)
    ensures
        capped(*old(engine), operations, *final(engine)),
{
    engine.set_max_operations(operations);
}

/// Cap the bytes of a text: `rhai::Engine::set_max_string_size`. Claimed: only that this
/// cap was set on that engine.
#[verifier::external_body]
fn cap_texts(engine: &mut rhai::Engine, size: usize)
    ensures
        texts_capped(*old(engine), size, *final(engine)),
{
    engine.set_max_string_size(size);
}

/// Cap the elements of an array: `rhai::Engine::set_max_array_size`. Claimed: only that
/// this cap was set on that engine.
#[verifier::external_body]
fn cap_arrays(engine: &mut rhai::Engine, size: usize)
    ensures
        arrays_capped(*old(engine), size, *final(engine)),
{
    engine.set_max_array_size(size);
}

/// Cap the entries of a map: `rhai::Engine::set_max_map_size`. Claimed: only that this cap
/// was set on that engine.
#[verifier::external_body]
fn cap_maps(engine: &mut rhai::Engine, size: usize)
    ensures
        maps_capped(*old(engine), size, *final(engine)),
{
    engine.set_max_map_size(size);
}

/// Take a keyword out of the language: `rhai::Engine::disable_symbol`. Claimed: only that
/// this symbol was taken from that engine.
#[verifier::external_body]
fn bar_symbol(engine: &mut rhai::Engine, symbol: &str)
    ensures
        symbol_barred(*old(engine), symbol@, *final(engine)),
{
    engine.disable_symbol(symbol);
}

/// Give the engine arithmetic on numbers: `rhai::packages::ArithmeticPackage`, registered. Claimed: only
/// that the package was added to that engine.
#[verifier::external_body]
fn add_arithmetic(engine: &mut rhai::Engine)
    ensures
        arithmetic_added(*old(engine), *final(engine)),
{
    rhai::packages::ArithmeticPackage::new().register_into_engine(engine);
}

/// Give the engine the conversion of values to texts: `rhai::packages::BasicStringPackage`, registered. Claimed: only
/// that the package was added to that engine.
#[verifier::external_body]
fn add_strings(engine: &mut rhai::Engine)
    ensures
        strings_added(*old(engine), *final(engine)),
{
    rhai::packages::BasicStringPackage::new().register_into_engine(engine);
}

/// Give the engine ranges, and iteration over them and over texts and arrays: `rhai::packages::BasicIteratorPackage`, registered. Claimed: only
/// that the package was added to that engine.
#[verifier::external_body]
fn add_iterators(engine: &mut rhai::Engine)
    ensures
        iterators_added(*old(engine), *final(engine)),
{
    rhai::packages::BasicIteratorPackage::new().register_into_engine(engine);
}

/// Give the engine the names of function values: `rhai::packages::BasicFnPackage`, registered. Claimed: only
/// that the package was added to that engine.
#[verifier::external_body]
fn add_functions(engine: &mut rhai::Engine)
    ensures
        functions_added(*old(engine), *final(engine)),
{
    rhai::packages::BasicFnPackage::new().register_into_engine(engine);
}

/// Give the engine the bits of integers: `rhai::packages::BitFieldPackage`, registered. Claimed: only
/// that the package was added to that engine.
#[verifier::external_body]
fn add_bits(engine: &mut rhai::Engine)
    ensures
        bits_added(*old(engine), *final(engine)),
{
    rhai::packages::BitFieldPackage::new().register_into_engine(engine);
}

/// Give the engine comparisons and boolean operators: `rhai::packages::LogicPackage`, registered. Claimed: only
/// that the package was added to that engine.
#[verifier::external_body]
fn add_logic(engine: &mut rhai::Engine)
    ensures
        logic_added(*old(engine), *final(engine)),
{
    rhai::packages::LogicPackage::new().register_into_engine(engine);
}

/// Give the engine mathematical functions and the conversion of numbers: `rhai::packages::BasicMathPackage`, registered. Claimed: only
/// that the package was added to that engine.
#[verifier::external_body]
fn add_math(engine: &mut rhai::Engine)
    ensures
        math_added(*old(engine), *final(engine)),
{
    rhai::packages::BasicMathPackage::new().register_into_engine(engine);
}

/// Give the engine byte arrays: `rhai::packages::BasicBlobPackage`, registered. Claimed: only
/// that the package was added to that engine.
#[verifier::external_body]
fn add_blobs(engine: &mut rhai::Engine)
    ensures
        blobs_added(*old(engine), *final(engine)),
{
    rhai::packages::BasicBlobPackage::new().register_into_engine(engine);
}

/// Allow or forbid anonymous functions: `rhai::Engine::set_allow_anonymous_fn`. Claimed:
/// only that this was set on that engine.
#[verifier::external_body]
fn set_anonymous(engine: &mut rhai::Engine, allowed: bool)
    ensures
        anonymous_set(*old(engine), allowed, *final(engine)),
{
    engine.set_allow_anonymous_fn(allowed);
}

/// Parse a script: `rhai::Engine::compile`. Claimed: the result is one that this engine
/// may give for this text. Left unsaid is which texts parse: that is the grammar of the
/// language, and its nesting limits depend on how the crate was built.
#[verifier::external_body]
fn parse(engine: &rhai::Engine, source: &str) -> (r: Result<rhai::AST, rhai::ParseError>)
    ensures
        may_parse(*engine, source@, r),
{
    engine.compile(source)
}

/// The text of a parse error: its `to_string`. Claimed: it is a function of the error.
/// The wording is left unsaid.
#[verifier::external_body]
fn describe(error: &rhai::ParseError) -> (s: String)
    ensures
        s@ == error_text(*error),
{
    error.to_string()
}

/// The steps that make an engine a sandboxed one, from the raw one on: eight packages, no
/// anonymous functions, neither `BINDING` nor `EVALUATION`, and the caps. The other standard packages stay out:
/// one has the clock; one sleeps; that of arrays panics on some lengths; that of maps runs
/// functions of the script past the cap on operations; and the second one of texts does not
/// come back from padding with an empty text.
pub open spec fn sandboxing(steps: Seq<rhai::Engine>) -> bool {
    &&& steps.len() == 16
    &&& raw_engine(steps[0])
    &&& arithmetic_added(steps[0], steps[1])
    &&& strings_added(steps[1], steps[2])
    &&& iterators_added(steps[2], steps[3])
    &&& functions_added(steps[3], steps[4])
    &&& bits_added(steps[4], steps[5])
    &&& logic_added(steps[5], steps[6])
    &&& math_added(steps[6], steps[7])
    &&& blobs_added(steps[7], steps[8])
    &&& anonymous_set(steps[8], false, steps[9])
    &&& symbol_barred(steps[9], BINDING@, steps[10])
    &&& symbol_barred(steps[10], EVALUATION@, steps[11])
    &&& texts_capped(steps[11], MAX_TEXT, steps[12])
    &&& arrays_capped(steps[12], MAX_ELEMENTS, steps[13])
    &&& maps_capped(steps[13], MAX_ENTRIES, steps[14])
    &&& capped(steps[14], MAX_OPERATIONS, steps[15])
}

/// An engine that came about by those steps and nothing else.
pub open spec fn sandboxed(engine: rhai::Engine) -> bool {
    exists|steps: Seq<rhai::Engine>| #[trigger] sandboxing(steps) && steps.last() == engine
}

/// Whether parsing some text on an engine may come to `r`.
pub open spec fn parsed_on(engine: rhai::Engine, r: Result<rhai::AST, rhai::ParseError>) -> bool {
    exists|source: Seq<char>| #[trigger] may_parse(engine, source, r)
}

/// Call a function of a script with these four arguments and an empty scope:
/// `rhai::Engine::call_fn`, the result taken as an integer. Claimed: the result is one
/// that this engine may give for this script, function and arguments. The engine has to be
/// a sandboxed one, and the script has to have been parsed on it: another engine might hold
/// functions that panic or do not return, and another parser let anonymous functions,
/// `BINDING` and `EVALUATION` through. Left unsaid is the value: it is what the script computes, and
/// real-valued functions may round differently from one machine to the next. So is the room
/// on the stack and in memory that a call takes: it is finite, and the machine's.
#[verifier::external_body]
fn call(
    engine: &rhai::Engine,
    ast: &rhai::AST,
    function: &str,
    base_price: Money,
    stock: i64,
    equilibrium: i64,
    elasticity: Bits,
) -> (r: Result<Money, Box<rhai::EvalAltResult>>)
    requires
        sandboxed(*engine),
        parsed_on(*engine, Ok(*ast)),
    ensures
        may_return(
            *engine,
            *ast,
            function@,
            base_price,
            stock,
            equilibrium,
            elasticity,
            r,
        ),
{
    let args = (base_price, stock, equilibrium, rhai::FLOAT::from_bits(elasticity));
    engine.call_fn::<Money>(&mut rhai::Scope::new(), ast, function, args)
}

/// A script failed to compile.
#[derive(Debug, Clone)]
pub struct CompileError(pub String);

impl CompileError {
    /// "script compile error: " and the reason.
    pub open spec fn spec_message(&self) -> Seq<char> {
        "script compile error: "@ + self.0@
    }

    /// The error as text.
    pub fn message(&self) -> (s: String)
        ensures
            s@ == self.spec_message(),
    {
        let mut s = String::new();
        s.append("script compile error: ");
        s.append(self.0.as_str());
        assert(s@ =~= self.spec_message());
        s
    }
}

/// Build a sandboxed, operation-limited engine.
fn sandboxed_engine() -> (engine: rhai::Engine)
    ensures
        sandboxed(engine),
{
    let mut engine = bare_engine();
    let ghost e0 = engine;
    add_arithmetic(&mut engine);
    let ghost e1 = engine;
    add_strings(&mut engine);
    let ghost e2 = engine;
    add_iterators(&mut engine);
    let ghost e3 = engine;
    add_functions(&mut engine);
    let ghost e4 = engine;
    add_bits(&mut engine);
    let ghost e5 = engine;
    add_logic(&mut engine);
    let ghost e6 = engine;
    add_math(&mut engine);
    let ghost e7 = engine;
    add_blobs(&mut engine);
    let ghost e8 = engine;
    set_anonymous(&mut engine, false);
    let ghost e9 = engine;
    bar_symbol(&mut engine, BINDING);
    let ghost e10 = engine;
    bar_symbol(&mut engine, EVALUATION);
    let ghost e11 = engine;
    cap_texts(&mut engine, MAX_TEXT);
    let ghost e12 = engine;
    cap_arrays(&mut engine, MAX_ELEMENTS);
    let ghost e13 = engine;
    cap_maps(&mut engine, MAX_ENTRIES);
    let ghost e14 = engine;
    cap_operations(&mut engine, MAX_OPERATIONS);
    assert(sandboxing(
        seq![e0, e1, e2, e3, e4, e5, e6, e7, e8, e9, e10, e11, e12, e13, e14, engine],
    ));
    engine
}

/// The price a script call came to: what it returned, at least one credit, and the floor
/// of one credit where it failed.
pub open spec fn settled_price(result: Result<Money, Box<rhai::EvalAltResult>>) -> Money {
    match result {
        Ok(p) => if p < 1 {
            1
        } else {
            p
        },
        Err(_) => 1,
    }
}

/// The price a script call came to.
pub fn settle(result: Result<Money, Box<rhai::EvalAltResult>>) -> (p: Money)
    ensures
        p == settled_price(result),
        p >= 1,
{
    match result {
        Ok(p) => if p < 1 {
            1
        } else {
            p
        },
        Err(_) => 1,
    }
}

/// A market pricing strategy authored as a script. The script defines
/// `fn price(base, stock, equilibrium, elasticity)`, which returns the unit price as an
/// integer.
#[derive(Debug)]
pub struct ScriptedPricing {
    engine: Arc<rhai::Engine>,
    ast: Arc<rhai::AST>,
}

impl Clone for ScriptedPricing {
    fn clone(&self) -> (s: Self)
        ensures
            s.spec_ast() == self.spec_ast(),
            s.spec_engine() == self.spec_engine(),
    {
        proof {
            use_type_invariant(self);
        }
        ScriptedPricing { engine: self.engine.clone(), ast: self.ast.clone() }
    }
}

impl ScriptedPricing {
    #[verifier::type_invariant]
    spec fn contained(self) -> bool {
        sandboxed(*self.engine) && parsed_on(*self.engine, Ok(*self.ast))
    }

    /// The compiled script.
    pub closed spec fn spec_ast(&self) -> rhai::AST {
        *self.ast
    }

    /// The engine it runs on.
    pub closed spec fn spec_engine(&self) -> rhai::Engine {
        *self.engine
    }

    /// A strategy from what parsing its source on the sandboxed `engine` came to: the script
    /// where it parsed, the reason where it did not.
    pub fn assemble(engine: rhai::Engine, parsed: Result<rhai::AST, rhai::ParseError>) -> (r: Result<
        Self,
        CompileError,
    >)
        requires
            sandboxed(engine),
            parsed_on(engine, parsed),
        ensures
            match parsed {
                Ok(ast) => match r {
                    Ok(s) => s.spec_ast() == ast && s.spec_engine() == engine,
                    Err(_) => false,
                },
                Err(e) => match r {
                    Ok(_) => false,
                    Err(reason) => reason.0@ == error_text(e),
                },
            },
    {
        match parsed {
            Ok(ast) => Ok(ScriptedPricing { engine: Arc::new(engine), ast: Arc::new(ast) }),
            Err(e) => Err(CompileError(describe(&e))),
        }
    }

    /// Compile a pricing script. Fails if the source does not parse.
    pub fn compile(source: &str) -> (r: Result<Self, CompileError>)
        ensures
            match r {
                Ok(s) => sandboxed(s.spec_engine()) && may_parse(
                    s.spec_engine(),
                    source@,
                    Ok(s.spec_ast()),
                ),
                Err(reason) => exists|engine: rhai::Engine, e: rhai::ParseError|
                    sandboxed(engine) && #[trigger] may_parse(engine, source@, Err(e))
                        && reason.0@ == error_text(e),
            },
    {
        let engine = sandboxed_engine();
        let parsed = parse(&engine, source);
        Self::assemble(engine, parsed)
    }

    /// The price is what a call of the script's `price` function with these arguments
    /// came to, at least one credit.
    pub open spec fn may_price(
        &self,
        base_price: Money,
        stock: Quantity,
        equilibrium: Quantity,
        elasticity: Bits,
        p: Money,
    ) -> bool {
        exists|r: Result<Money, Box<rhai::EvalAltResult>>| #[trigger]
            may_return(
                self.spec_engine(),
                self.spec_ast(),
                PRICE_FN@,
                base_price,
                stock as i64,
                equilibrium as i64,
                elasticity,
                r,
            ) && p == settled_price(r)
    }

    /// Compute a unit price by calling the script. A script that fails, runs away or
    /// does not return an integer yields the floor of one credit.
    pub fn price(
        &self,
        base_price: Money,
        stock: Quantity,
        equilibrium: Quantity,
        elasticity: Bits,
    ) -> (p: Money)
        ensures
            self.may_price(base_price, stock, equilibrium, elasticity, p),
            p >= 1,
    {
        proof {
            use_type_invariant(self);
        }
        let result = call(
            &self.engine,
            &self.ast,
            PRICE_FN,
            base_price,
            stock as i64,
            equilibrium as i64,
            elasticity,
        );
        assert(may_return(
            self.spec_engine(),
            self.spec_ast(),
            PRICE_FN@,
            base_price,
            stock as i64,
            equilibrium as i64,
            elasticity,
            result,
        ));
        settle(result)
    }
}

/// A price is what the script returned, lifted to one credit; a call that failed prices at
/// one credit.
pub proof fn lemma_prices_are_lifted(p: Money, e: Box<rhai::EvalAltResult>)
    ensures
        p >= 1 ==> settled_price(Ok(p)) == p,
        p < 1 ==> settled_price(Ok(p)) == 1,
        settled_price(Err(e)) == 1,
{
}

} // verus!
