use vstd::prelude::*;

verus! {

/// Application context shared across commands.
#[derive(Debug, Clone)]
pub struct ForgeContext {
    pub name: String,
    pub version: String,
}

impl ForgeContext {
    pub fn new() -> (r: Self)
        ensures
            r.name@ == "forge"@,
            r.version@ == "0.1.0"@,
    {
        proof {
            reveal_strlit("forge");
            reveal_strlit("0.1.0");
        }
        ForgeContext { name: "forge".to_owned(), version: "0.1.0".to_owned() }
    }
}

impl Default for ForgeContext {
    fn default() -> (r: Self)
        ensures
            r.name@ == "forge"@,
            r.version@ == "0.1.0"@,
    {
        ForgeContext::new()
    }
}

} // verus!
