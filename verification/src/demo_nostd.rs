//! The functions of the demo page without the standard library.
use vstd::prelude::*;

verus! {

/// A person with text, numbers and an optional field.
#[derive(Debug)]
pub struct Person {
    pub name: String,
    pub age: u32,
    pub email: Option<String>,
    pub scores: Vec<u32>,
}

/// A sample person.
pub fn get_adult_person() -> (r: Person)
    ensures
        r.name@ == "Susize"@,
        r.age == 25,
        r.email matches Some(e) && e@ == "susize@example.com"@,
        r.scores@ == seq![95u32, 87, 92],
{
    let mut scores: Vec<u32> = Vec::new();
    scores.push(95);
    scores.push(87);
    scores.push(92);
    assert(scores@ =~= seq![95u32, 87, 92]);
    Person {
        name: "Susize".to_owned(),
        age: 25,
        email: Some("susize@example.com".to_owned()),
        scores,
    }
}

/// Says hello.
pub fn greet() -> (r: String)
    ensures
        r@ == "Hello! wasm_zero (no_std) is loaded."@,
{
    "Hello! wasm_zero (no_std) is loaded.".to_owned()
}

} // verus!
