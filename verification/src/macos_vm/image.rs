use crate::macos_vm::DEFAULT_MACOS_IMAGE;
use crate::text::{ascii_lower, is_prefix, owned, starts_with, str_eq, to_ascii_lower, trim, trim_str};
use vstd::prelude::*;

verus! {

/// The VM image chosen for a job, whether a label matched exactly, and the label used.
#[derive(Debug, Clone, PartialEq, Eq)]
pub struct ImageResolution {
    pub image: String,
    pub exact: bool,
    pub matched_label: Option<String>,
}

/// The image for a GitHub macOS runner label (compared case-insensitively).
pub open spec fn label_image(label: Seq<char>) -> Option<Seq<char>> {
    let l = ascii_lower(label);
    if l == "macos-13"@ {
        Some("ghcr.io/cirruslabs/macos-ventura-xcode:latest"@)
    } else if l == "macos-14"@ {
        Some("ghcr.io/cirruslabs/macos-sonoma-xcode:latest"@)
    } else if l == "macos-15"@ {
        Some("ghcr.io/cirruslabs/macos-sequoia-xcode:latest"@)
    } else if l == "macos-26"@ {
        Some("ghcr.io/cirruslabs/macos-tahoe-xcode:latest"@)
    } else if l == "macos-latest"@ || l == "macos"@ {
        Some("ghcr.io/cirruslabs/macos-sonoma-xcode:latest"@)
    } else {
        None
    }
}

fn label_to_image(label: &str) -> (r: Option<&'static str>)
    ensures
        match r {
            Some(i) => label_image(label@) == Some(i@),
            None => label_image(label@) is None,
        },
{
    let l = to_ascii_lower(label);
    let s = l.as_str();
    if str_eq(s, "macos-13") {
        Some("ghcr.io/cirruslabs/macos-ventura-xcode:latest")
    } else if str_eq(s, "macos-14") {
        Some("ghcr.io/cirruslabs/macos-sonoma-xcode:latest")
    } else if str_eq(s, "macos-15") {
        Some("ghcr.io/cirruslabs/macos-sequoia-xcode:latest")
    } else if str_eq(s, "macos-26") {
        Some("ghcr.io/cirruslabs/macos-tahoe-xcode:latest")
    } else if str_eq(s, "macos-latest") || str_eq(s, "macos") {
        Some("ghcr.io/cirruslabs/macos-sonoma-xcode:latest")
    } else {
        None
    }
}

/// The first label that maps to an image, if any.
pub open spec fn first_mapped(labels: Seq<Seq<char>>, i: int) -> bool {
    0 <= i < labels.len() && label_image(labels[i]) is Some && forall|j: int|
        0 <= j < i ==> label_image(#[trigger] labels[j]) is None
}

/// The label reported when no label maps: the first that starts with "macos" (any case),
/// else the first label.
pub open spec fn fallback_label(labels: Seq<Seq<char>>) -> Option<Seq<char>> {
    if exists|i: int| 0 <= i < labels.len() && is_prefix("macos"@, ascii_lower(#[trigger] labels[i])) {
        let i = choose|i: int|
            0 <= i < labels.len() && is_prefix("macos"@, ascii_lower(labels[i])) && forall|j: int|
                0 <= j < i ==> !is_prefix("macos"@, ascii_lower(#[trigger] labels[j]));
        Some(labels[i])
    } else if labels.len() > 0 {
        Some(labels[0])
    } else {
        None
    }
}

pub open spec fn opt_view(o: Option<String>) -> Option<Seq<char>> {
    match o {
        Some(s) => Some(s@),
        None => None,
    }
}

/// Chooses the macOS VM image: a non-blank override, else the first label with a known image,
/// else the default image (not exact) with a best-effort label.
pub fn resolve_macos_vm_image(labels: &Vec<String>, override_image: Option<&str>) -> (r: ImageResolution)
    ensures
        ({
            let ls = crate::text::views(labels@);
            match override_image {
                Some(o) if trim(o@).len() > 0 => r.image@ == trim(o@) && r.exact && r.matched_label is None,
                _ => if exists|i: int| first_mapped(ls, i) {
                    let i = choose|i: int| first_mapped(ls, i);
                    &&& r.image@ == label_image(ls[i])->0
                    &&& r.exact
                    &&& opt_view(r.matched_label) == Some(ls[i])
                } else {
                    &&& r.image@ == DEFAULT_MACOS_IMAGE@
                    &&& !r.exact
                    &&& opt_view(r.matched_label) == fallback_label(ls)
                },
            }
        }),
{
    let ghost ls = crate::text::views(labels@);
    if let Some(o) = override_image {
        let t = trim_str(o);
        if !t.as_str().is_empty() {
            return ImageResolution { image: t, exact: true, matched_label: None };
        }
    }
    let mut i: usize = 0;
    while i < labels.len()
        invariant
            ls == crate::text::views(labels@),
            override_image matches Some(o) ==> trim(o@).len() == 0,
            i <= labels.len(),
            forall|j: int| 0 <= j < i ==> label_image(#[trigger] ls[j]) is None,
        decreases labels.len() - i,
    {
        assert(ls[i as int] == labels@[i as int]@);
        if let Some(mapped) = label_to_image(labels[i].as_str()) {
            proof {
                assert(first_mapped(ls, i as int));
                let k = choose|k: int| first_mapped(ls, k);
                if k < i {
                } else if k > i {
                    assert(label_image(ls[i as int]) is None);
                }
            }
            return ImageResolution { image: owned(mapped), exact: true, matched_label: Some(labels[i].clone()) };
        }
        i += 1;
    }
    assert(!exists|k: int| first_mapped(ls, k));
    let mut j: usize = 0;
    while j < labels.len()
        invariant
            ls == crate::text::views(labels@),
            override_image matches Some(o) ==> trim(o@).len() == 0,
            !exists|k: int| first_mapped(ls, k),
            j <= labels.len(),
            forall|k: int| 0 <= k < j ==> !is_prefix("macos"@, ascii_lower(#[trigger] ls[k])),
        decreases labels.len() - j,
    {
        assert(ls[j as int] == labels@[j as int]@);
        let lower = to_ascii_lower(labels[j].as_str());
        if starts_with(lower.as_str(), "macos") {
            proof {
                let k = choose|k: int|
                    0 <= k < ls.len() && is_prefix("macos"@, ascii_lower(ls[k])) && forall|m: int|
                        0 <= m < k ==> !is_prefix("macos"@, ascii_lower(#[trigger] ls[m]));
                if k < j {
                } else if k > j {
                    assert(!is_prefix("macos"@, ascii_lower(ls[j as int])));
                }
            }
            return ImageResolution {
                image: owned(DEFAULT_MACOS_IMAGE),
                exact: false,
                matched_label: Some(labels[j].clone()),
            };
        }
        j += 1;
    }
    let matched_label = if labels.len() > 0 {
        assert(ls[0] == labels@[0]@);
        Some(labels[0].clone())
    } else {
        None
    };
    ImageResolution { image: owned(DEFAULT_MACOS_IMAGE), exact: false, matched_label }
}

} // verus!
