//! Keys under which a contract's commitment is stored.
use vstd::prelude::*;

verus! {

/// A contract's full name: the principal that published it, in its text form,
/// and the contract's own name.
pub struct QualifiedContractIdentifier {
    pub issuer: String,
    pub name: String,
}

/// The text form of a contract's full name: `issuer.name`.
pub open spec fn contract_text(c: QualifiedContractIdentifier) -> Seq<char> {
    c.issuer@ + "."@ + c.name@
}

/// The storage key of a contract's hash: `clarity-contract::` then the
/// contract's full name.
pub fn make_contract_hash_key(contract: &QualifiedContractIdentifier) -> (r: String)
    ensures
        r@ == "clarity-contract::"@ + contract_text(*contract),
{
    let mut key = String::from_str("clarity-contract::");
    key.append(contract.issuer.as_str());
    key.append(".");
    key.append(contract.name.as_str());
    assert(key@ =~= "clarity-contract::"@ + contract_text(*contract));
    key
}

} // verus!
