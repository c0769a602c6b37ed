//! The built-in modules: their functions under unqualified names, which the
//! interpreter registers under `module.function`.
use vstd::prelude::*;
use crate::value::{Native, Value, Binding, SValue, SBinding, env_model, literal_chars};

verus! {

pub open spec fn entry(name: Seq<char>, k: Native) -> SBinding {
    SBinding { name, value: SValue::NativeFunction(k), is_const: false }
}

pub open spec fn math_module() -> Seq<SBinding> {
    seq![entry("sqrt"@, Native::Sqrt), entry("pow"@, Native::Pow), entry("random"@, Native::Random)]
}

pub open spec fn filebox_module() -> Seq<SBinding> {
    seq![entry("readFile"@, Native::ReadFile), entry("writeFile"@, Native::WriteFile)]
}

pub open spec fn style_module() -> Seq<SBinding> {
    seq![
        entry("red"@, Native::Style(31)),
        entry("green"@, Native::Style(32)),
        entry("yellow"@, Native::Style(33)),
        entry("blue"@, Native::Style(34)),
        entry("magenta"@, Native::Style(35)),
        entry("cyan"@, Native::Style(36)),
        entry("white"@, Native::Style(37)),
        entry("bold"@, Native::Style(1)),
        entry("underline"@, Native::Style(4)),
        entry("bgRed"@, Native::Style(41)),
        entry("bgGreen"@, Native::Style(42)),
        entry("bgYellow"@, Native::Style(43)),
        entry("bgBlue"@, Native::Style(44)),
    ]
}

/// A module's entries under `prefix` followed by their names.
pub open spec fn prefixed(prefix: Seq<char>, m: Seq<SBinding>) -> Seq<SBinding> {
    m.map_values(|b: SBinding| SBinding { name: prefix + b.name, value: b.value, is_const: b.is_const })
}

/// The global environment that every interpreter starts with.
pub open spec fn registry() -> Seq<SBinding> {
    seq![entry("print"@, Native::Print)] + prefixed("fb."@, filebox_module()) + prefixed(
        "math."@,
        math_module(),
    ) + prefixed("style."@, style_module())
}

fn native_binding(name: &str, k: Native) -> (r: Binding)
    ensures
        r.model() == entry(name@, k),
{
    Binding { name: literal_chars(name), value: Value::NativeFunction(k), is_const: false }
}

/// The numeric module: `sqrt`, `pow` and `random`.
pub fn get_math_module() -> (r: Vec<Binding>)
    ensures
        env_model(r@) == math_module(),
{
    let r = vec![
        native_binding("sqrt", Native::Sqrt),
        native_binding("pow", Native::Pow),
        native_binding("random", Native::Random),
    ];
    assert(env_model(r@) =~= math_module());
    r
}

/// The file module: `readFile` and `writeFile`.
pub fn get_filebox_module() -> (r: Vec<Binding>)
    ensures
        env_model(r@) == filebox_module(),
{
    let r = vec![
        native_binding("readFile", Native::ReadFile),
        native_binding("writeFile", Native::WriteFile),
    ];
    assert(env_model(r@) =~= filebox_module());
    r
}

/// The text-styling module: colours, bold, underline and backgrounds.
pub fn get_style_module() -> (r: Vec<Binding>)
    ensures
        env_model(r@) == style_module(),
{
    let r = vec![
        native_binding("red", Native::Style(31)),
        native_binding("green", Native::Style(32)),
        native_binding("yellow", Native::Style(33)),
        native_binding("blue", Native::Style(34)),
        native_binding("magenta", Native::Style(35)),
        native_binding("cyan", Native::Style(36)),
        native_binding("white", Native::Style(37)),
        native_binding("bold", Native::Style(1)),
        native_binding("underline", Native::Style(4)),
        native_binding("bgRed", Native::Style(41)),
        native_binding("bgGreen", Native::Style(42)),
        native_binding("bgYellow", Native::Style(43)),
        native_binding("bgBlue", Native::Style(44)),
    ];
    assert(env_model(r@) =~= style_module());
    r
}

/// Appends the entries of `module` to `env`, each under `prefix` and its name.
pub fn register_module(env: &mut Vec<Binding>, prefix: &str, module: Vec<Binding>)
    ensures
        env_model(final(env)@) == env_model(old(env)@) + prefixed(prefix@, env_model(module@)),
{
    let p = literal_chars(prefix);
    let ghost mm = env_model(module@);
    let mut i: usize = 0;
    while i < module.len()
        invariant
            i <= module.len(),
            p@ == prefix@,
            mm == env_model(module@),
            env_model(env@) == env_model(old(env)@) + prefixed(prefix@, mm.subrange(0, i as int)),
        decreases module.len() - i,
    {
        let mut name = crate::lexer::copy_text(&p);
        crate::number::append_chars(&mut name, &module[i].name);
        let b = Binding {
            name,
            value: crate::value::clone_value(&module[i].value),
            is_const: module[i].is_const,
        };
        let ghost before = env@;
        let ghost bm = b.model();
        env.push(b);
        assert(env_model(env@) =~= env_model(before).push(bm));
        assert(prefixed(prefix@, mm.subrange(0, i + 1)) =~= prefixed(prefix@, mm.subrange(0, i as int)).push(bm));
        i += 1;
    }
    assert(mm.subrange(0, i as int) =~= mm);
}

/// The global environment of a new interpreter.
pub fn build_registry() -> (r: Vec<Binding>)
    ensures
        env_model(r@) == registry(),
{
    let mut globals: Vec<Binding> = Vec::new();
    globals.push(native_binding("print", Native::Print));
    assert(env_model(globals@) =~= seq![entry("print"@, Native::Print)]);
    register_module(&mut globals, "fb.", get_filebox_module());
    register_module(&mut globals, "math.", get_math_module());
    register_module(&mut globals, "style.", get_style_module());
    globals
}

} // verus!
