//! Items of a small example package, the kind of package the analysis reads.
use vstd::prelude::*;
use vstd::string::StringExecFns;

verus! {

/// A named value.
#[derive(Debug)]
pub struct Data {
    pub name: String,
    pub value: i32,
}

/// The sample value: named `test`, holding 42.
pub fn create_data() -> (r: Data)
    ensures
        r.name@ == "test"@,
        r.value == 42,
{
    Data { name: String::from_str("test"), value: 42 }
}

/// A server configuration.
#[derive(Debug)]
pub struct Config {
    pub port: u16,
}

/// A named item.
#[derive(Debug)]
pub struct TestStruct {
    pub name: String,
}

/// A named item handed on to another package.
#[derive(Debug)]
pub struct ForwardData {
    pub name: String,
}

} // verus!
