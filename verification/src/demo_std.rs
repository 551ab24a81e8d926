//! The functions of the demo page with the standard library.
use vstd::prelude::*;

verus! {

/// A person.
#[derive(Debug)]
pub struct Person {
    pub name: String,
    pub age: u32,
}

/// Says hello to `name`.
pub fn greet(name: &str) -> (r: String)
    ensures
        r@ == "Hello, "@ + name@ + "! wasm_zero (std) is loaded."@,
{
    let mut out: String = "Hello, ".to_owned();
    out.append(name);
    out.append("! wasm_zero (std) is loaded.");
    out
}

} // verus!
