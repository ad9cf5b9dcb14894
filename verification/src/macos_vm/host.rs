use crate::plan::HostCapability;
use crate::text::{cat3, owned, str_eq};
use vstd::prelude::*;

verus! {

/// The capability that `check_macos_vm_host` reports.
pub open spec fn host_capability_spec(platform: Seq<char>, arch: Seq<char>, has_tart: bool, has_sshpass: bool) -> Option<(Seq<char>, Option<Seq<char>>)> {
    if !(platform == "darwin"@ || platform == "macos"@) {
        Some(("macOS VM runner requires a macOS host (got "@ + platform + ")."@, None))
    } else if !(arch == "arm64"@ || arch == "aarch64"@) {
        Some((
            "macOS VM runner requires an Apple Silicon host (got "@ + arch + ")."@,
            Some("Apple's Virtualization.framework does not support macOS guests on Intel Macs."@),
        ))
    } else if !has_tart {
        Some(("macOS VM runner requires `tart` to be installed."@, Some("Install with: brew install cirruslabs/cli/tart"@)))
    } else if !has_sshpass {
        Some((
            "macOS VM runner requires `sshpass` to be installed."@,
            Some("Install with: brew install hudochenkov/sshpass/sshpass"@),
        ))
    } else {
        None
    }
}

/// The capability as reason and hint views (`None` when supported).
pub open spec fn capability_view(c: HostCapability) -> Option<(Seq<char>, Option<Seq<char>>)> {
    match c {
        HostCapability::Supported => None,
        HostCapability::Unsupported { reason, hint } => Some((reason@, match hint {
            Some(h) => Some(h@),
            None => None,
        })),
    }
}

/// Whether this host can run macOS guests: a macOS Apple Silicon host with `tart` and `sshpass`.
pub fn check_macos_vm_host(platform: &str, arch: &str, has_tart: bool, has_sshpass: bool) -> (c: HostCapability)
    ensures
        capability_view(c) == host_capability_spec(platform@, arch@, has_tart, has_sshpass),
{
    if !(str_eq(platform, "darwin") || str_eq(platform, "macos")) {
        return HostCapability::Unsupported {
            reason: cat3("macOS VM runner requires a macOS host (got ", platform, ")."),
            hint: None,
        };
    }
    if !(str_eq(arch, "arm64") || str_eq(arch, "aarch64")) {
        return HostCapability::Unsupported {
            reason: cat3("macOS VM runner requires an Apple Silicon host (got ", arch, ")."),
            hint: Some(owned("Apple's Virtualization.framework does not support macOS guests on Intel Macs.")),
        };
    }
    if !has_tart {
        return HostCapability::Unsupported {
            reason: owned("macOS VM runner requires `tart` to be installed."),
            hint: Some(owned("Install with: brew install cirruslabs/cli/tart")),
        };
    }
    if !has_sshpass {
        return HostCapability::Unsupported {
            reason: owned("macOS VM runner requires `sshpass` to be installed."),
            hint: Some(owned("Install with: brew install hudochenkov/sshpass/sshpass")),
        };
    }
    HostCapability::Supported
}

} // verus!
