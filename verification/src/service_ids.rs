//! Well-known Roon service IDs
use vstd::prelude::*;

verus! {

/// Roon API service ID - used by Roon extensions and control applications
pub const ROON_API: &'static str = "00720724-5143-4a9b-abac-0e50cba674bb";

/// Roon Server service ID - the main Roon Core server
pub const ROON_SERVER: &'static str = "d52b2cb7-02c5-48fc-981b-a10f0aadd93b";

/// Roon OS service ID - Roon OS/Nucleus devices
pub const ROON_OS: &'static str = "ecb37afa-665f-4693-9fba-54823b6f1ff1";

/// RAAT Endpoint service ID - Roon OS/Nucleus devices
pub const RAAT_ENDPOINT: &'static str = "5e2042ad-9bc5-4508-be92-ff68f19bdc93";

} // verus!
