//! The securities that a statement lists.

use vstd::prelude::*;
use crate::broker_statement::firstrade::common::TransactionError;
use crate::text::same_text;

verus! {

/// What identifies a security in a statement.
pub struct SecurityId {
    pub id: String,
    pub kind: String,
}

/// What a security is.
pub enum SecurityType {
    Interest,
    Stock(String),
}

/// The securities of a statement, each with what it is. Where an identifier
/// is listed twice, the first listing counts.
pub struct SecurityInfo {
    pub info: Vec<(SecurityId, SecurityType)>,
}

pub open spec fn same_security(a: SecurityId, b: SecurityId) -> bool {
    a.id@ == b.id@ && a.kind@ == b.kind@
}

/// The place of the first security with this identifier among the first
/// `k`, or -1.
pub open spec fn security_place(info: Seq<(SecurityId, SecurityType)>, id: SecurityId, k: int) -> int
    decreases k,
{
    if k <= 0 {
        -1
    } else if security_place(info, id, k - 1) >= 0 {
        security_place(info, id, k - 1)
    } else if same_security(info[k - 1].0, id) {
        k - 1
    } else {
        -1
    }
}

/// What the security with this identifier is, if the statement lists it.
pub open spec fn security_of(info: Seq<(SecurityId, SecurityType)>, id: SecurityId) -> Option<
    SecurityType,
> {
    let place = security_place(info, id, info.len() as int);
    if place >= 0 {
        Some(info[place].1)
    } else {
        None
    }
}

pub proof fn lemma_security_stays(
    info: Seq<(SecurityId, SecurityType)>,
    id: SecurityId,
    k: int,
    n: int,
)
    requires
        0 <= k <= n,
        security_place(info, id, k) >= 0,
    ensures
        security_place(info, id, n) == security_place(info, id, k),
    decreases n - k,
{
    if k < n {
        lemma_security_stays(info, id, k, n - 1);
    }
}

impl SecurityInfo {
    /// What the security with this identifier is.
    pub fn get(&self, id: &SecurityId) -> (result: Result<&SecurityType, TransactionError>)
        ensures
            match result {
                Ok(security) => security_of(self.info@, *id) == Some(*security),
                Err(error) => error == TransactionError::UnknownSecurity && security_of(
                    self.info@,
                    *id,
                ) is None,
            },
    {
        let n: usize = self.info.len();
        let mut i: usize = 0;
        while i < n
            invariant
                i <= n,
                n == self.info@.len(),
                security_place(self.info@, *id, i as int) < 0,
            decreases n - i,
        {
            if same_text(self.info[i].0.id.as_str(), id.id.as_str()) && same_text(
                self.info[i].0.kind.as_str(),
                id.kind.as_str(),
            ) {
                proof {
                    lemma_security_stays(self.info@, *id, i as int + 1, n as int);
                }
                return Ok(&self.info[i].1);
            }
            i += 1;
        }
        Err(TransactionError::UnknownSecurity)
    }
}

} // verus!
