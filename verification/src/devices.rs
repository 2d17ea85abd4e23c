//! Device driver support: the discovery-information capability and the
//! selection logic of the one concrete driver, a presence-sensor model
//! found over the accessory service.

use vstd::prelude::*;
use vstd::string::StringSliceAdditionalSpecFns;

use crate::discovery::{text_bytes, Advertisement};

verus! {

/// What every driver's discovery result can tell a caller.
pub trait DiscoveryInfo {
    /// A human-readable name.
    fn name(&self) -> &str;

    /// The device's unique identifier.
    fn id(&self) -> &str;
}

/// Whether two attribute texts are the same, byte for byte.
pub fn matches_model(model: &str, wanted: &str) -> (r: bool)
    ensures
        r == (model.spec_bytes() == wanted.spec_bytes()),
{
    let a = model.as_bytes();
    let b = wanted.as_bytes();
    if a.len() != b.len() {
        return false;
    }
    let mut i: usize = 0;
    while i < a.len()
        invariant
            i <= a@.len(),
            a@.len() == b@.len(),
            a@ == model.spec_bytes(),
            b@ == wanted.spec_bytes(),
            forall|j: int| 0 <= j < i ==> a@[j] == b@[j],
        decreases a@.len() - i,
    {
        if a[i] != b[i] {
            return false;
        }
        i = i + 1;
    }
    proof {
        assert(a@ =~= b@);
    }
    true
}

/// A presence sensor found during discovery.
pub struct AqaraFP2Discovery {
    id: String,
    name: String,
    ip: String,
}

impl AqaraFP2Discovery {
    pub closed spec fn spec_id(&self) -> Seq<char> {
        self.id@
    }

    pub closed spec fn spec_name(&self) -> Seq<char> {
        self.name@
    }

    pub closed spec fn spec_ip(&self) -> Seq<char> {
        self.ip@
    }

    /// A discovery result with the given identifier, name and address text.
    pub fn new(id: String, name: String, ip: String) -> (r: Self)
        ensures
            r.spec_id() == id@,
            r.spec_name() == name@,
            r.spec_ip() == ip@,
    {
        AqaraFP2Discovery { id, name, ip }
    }
}

impl DiscoveryInfo for AqaraFP2Discovery {
    fn name(&self) -> &str {
        self.name.as_str()
    }

    fn id(&self) -> &str {
        self.id.as_str()
    }
}

/// An advertisement names this driver's device: the wanted model, an
/// identifier, and at least one address.
pub open spec fn spec_is_fp2_selection(adv: Advertisement, wanted: Seq<u8>) -> bool {
    adv.model is Some && text_bytes(adv.model->0@) == wanted && adv.id is Some
        && adv.addresses@.len() > 0
}

/// The driver's selection decision for one resolved advertisement: a
/// discovery result exactly when the advertised model matches and an
/// identifier and an address are present.
pub fn fp2_from_advertisement(adv: &Advertisement, wanted_model: &str) -> (r: Option<
    AqaraFP2Discovery,
>)
    ensures
        (match r {
            Some(d) => spec_is_fp2_selection(*adv, wanted_model.spec_bytes()) && d.spec_name()
                == adv.model->0@ && d.spec_id() == adv.id->0@ && d.spec_ip()
                == adv.addresses@[0].text@,
            None => !spec_is_fp2_selection(*adv, wanted_model.spec_bytes()),
        }),
{
    let model = match &adv.model {
        Some(m) => m,
        None => {
            return None;
        },
    };
    if !matches_model(model.as_str(), wanted_model) {
        return None;
    }
    let id = match &adv.id {
        Some(i) => i.clone(),
        None => {
            return None;
        },
    };
    if adv.addresses.len() == 0 {
        return None;
    }
    let ip = adv.addresses[0].text.clone();
    Some(AqaraFP2Discovery::new(id, model.clone(), ip))
}

/// The presence sensor as a configured device.
#[derive(Debug)]
pub struct AqaraFP2 {
    pub name: &'static str,
    pub ip: &'static str,
}

/// The driver for the presence sensor.
pub struct AqaraFP2Driver {}

impl AqaraFP2Driver {
    /// A fresh driver.
    pub fn new() -> (r: Self) {
        AqaraFP2Driver {}
    }
}

/// A stand-in device used while wiring a home description together.
#[derive(Debug)]
pub struct DummyDevice {
    pub device_type: &'static str,
    pub name: &'static str,
}

} // verus!
