//! Whether the packet-capture driver (Npcap) is usable, decided from what the
//! caller found on the system.
use vstd::prelude::*;

use crate::text::{trim, trimmed};

verus! {

/// The state of the capture driver, for the user interface.
#[derive(Debug, Clone)]
pub struct NpcapStatus {
    /// Whether the driver's library was found.
    pub installed: bool,
    /// The driver's version, when recorded.
    pub version: Option<String>,
    /// The directory of the driver's library.
    pub install_path: Option<String>,
    /// Whether the driver's service is registered.
    pub service_registered: bool,
    /// Whether the platform can use the driver at all (Windows only).
    pub supported_platform: bool,
}

/// What was found on the system: whether it runs Windows, where the driver's
/// library is, the version values recorded for the driver in the order they
/// are consulted, and whether its service is registered.
#[derive(Debug, Clone)]
pub struct NpcapProbe {
    pub windows: bool,
    pub install_path: Option<String>,
    pub version_values: Vec<String>,
    pub service_registered: bool,
}

/// The first recorded version value that is not blank, trimmed.
pub open spec fn first_version(values: Seq<Seq<char>>) -> Option<Seq<char>>
    decreases values.len(),
{
    if values.len() == 0 {
        None
    } else if trim(values[0]).len() > 0 {
        Some(trim(values[0]))
    } else {
        first_version(values.drop_first())
    }
}

impl NpcapStatus {
    /// The status on a platform without the driver.
    pub fn unsupported() -> (r: NpcapStatus)
        ensures
            !r.installed && r.version is None && r.install_path is None && !r.service_registered
                && !r.supported_platform,
    {
        NpcapStatus {
            installed: false,
            version: None,
            install_path: None,
            service_registered: false,
            supported_platform: false,
        }
    }

    /// The status on Windows when the driver is missing.
    pub fn not_installed() -> (r: NpcapStatus)
        ensures
            !r.installed && r.version is None && r.install_path is None && !r.service_registered
                && r.supported_platform,
    {
        NpcapStatus {
            installed: false,
            version: None,
            install_path: None,
            service_registered: false,
            supported_platform: true,
        }
    }
}

/// The version of the driver: the first recorded value that is not blank,
/// without surrounding whitespace.
pub fn read_npcap_version(values: &Vec<String>) -> (r: Option<String>)
    ensures
        match r {
            Some(v) => first_version(values@.map_values(|s: String| s@)) == Some(v@),
            None => first_version(values@.map_values(|s: String| s@)) is None,
        },
{
    let ghost all = values@.map_values(|s: String| s@);
    let mut i: usize = 0;
    assert(all.skip(0) =~= all);
    while i < values.len()
        invariant
            i <= values@.len(),
            all == values@.map_values(|s: String| s@),
            first_version(all) == first_version(all.skip(i as int)),
        decreases values@.len() - i,
    {
        let t = trimmed(values[i].as_str());
        assert(all.skip(i as int)[0] == values@[i as int]@);
        if t.unicode_len() > 0 {
            return Some(t);
        }
        assert(all.skip(i as int).drop_first() =~= all.skip(i + 1));
        i = i + 1;
    }
    None
}

/// The status of the capture driver on Windows: not installed when its
/// library directory was not found; otherwise installed, with its version
/// (the first recorded value that is not blank), library directory and
/// service registration.
pub fn detect_npcap_windows(install_path: Option<String>, version_values: &Vec<String>, service_registered: bool) -> (r: NpcapStatus)
    ensures
        r.supported_platform,
        r.installed == (install_path is Some),
        r.installed ==> r.install_path == install_path && r.service_registered == service_registered
            && match r.version {
            Some(v) => first_version(version_values@.map_values(|s: String| s@)) == Some(v@),
            None => first_version(version_values@.map_values(|s: String| s@)) is None,
        },
        !r.installed ==> r.version is None && r.install_path is None && !r.service_registered,
{
    if install_path.is_none() {
        return NpcapStatus::not_installed();
    }
    let version = read_npcap_version(version_values);
    NpcapStatus { installed: true, version, install_path, service_registered, supported_platform: true }
}

/// The status of the capture driver: unsupported off Windows, otherwise as
/// `detect_npcap_windows` decides from what was found.
pub fn detect_npcap(probe: &NpcapProbe) -> (r: NpcapStatus)
    ensures
        r.supported_platform == probe.windows,
        r.installed == (probe.windows && probe.install_path is Some),
        r.installed ==> r.install_path == probe.install_path && r.service_registered == probe.service_registered
            && match r.version {
            Some(v) => first_version(probe.version_values@.map_values(|s: String| s@)) == Some(v@),
            None => first_version(probe.version_values@.map_values(|s: String| s@)) is None,
        },
        !r.installed ==> r.version is None && r.install_path is None && !r.service_registered,
{
    if !probe.windows {
        return NpcapStatus::unsupported();
    }
    detect_npcap_windows(probe.install_path.clone(), &probe.version_values, probe.service_registered)
}

} // verus!
