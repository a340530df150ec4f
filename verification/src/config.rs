//! The application's provider credentials, read from its configuration.

use vstd::prelude::*;

verus! {

/// The two secrets under which the application authorizes itself.
pub struct NordigenConfig {
    pub secret_id: String,
    pub secret_key: String,
}

impl NordigenConfig {
    /// A one-line description of the configuration.
    pub fn describe(&self) -> (r: String)
        ensures
            r@ == " secret(id: "@ + self.secret_id@ + ", key: "@ + self.secret_key@ + ")"@,
    {
        let mut out = String::new();
        out.append(" secret(id: ");
        out.append(self.secret_id.as_str());
        out.append(", key: ");
        out.append(self.secret_key.as_str());
        out.append(")");
        proof {
            assert(out@ =~= " secret(id: "@ + self.secret_id@ + ", key: "@ + self.secret_key@
                + ")"@);
        }
        out
    }
}

} // verus!
