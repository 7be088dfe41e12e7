//! The configuration values used where the environment sets none.
use vstd::prelude::*;

verus! {

/// The default address to listen on and the default name of the collection metadata file.
#[derive(Debug)]
pub struct ConfigDefaults {
    pub address: &'static str,
    pub collection_metadata_filename: &'static str,
}

impl Default for ConfigDefaults {
    fn default() -> (r: ConfigDefaults)
        ensures
            r.address@ == "0.0.0.0:8080"@,
            r.collection_metadata_filename@ == "metadata.cjson"@,
    {
        ConfigDefaults { address: "0.0.0.0:8080", collection_metadata_filename: "metadata.cjson" }
    }
}

} // verus!
