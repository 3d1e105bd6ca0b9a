use vstd::prelude::*;

verus! {

/// Version-resource strings of an executable; each may be absent.
#[derive(Debug, Default, Clone)]
pub struct VersionInfo {
    pub product_name: Option<String>,
    pub company_name: Option<String>,
    pub file_description: Option<String>,
    pub product_version: Option<String>,
    pub file_version: Option<String>,
    pub copyright: Option<String>,
}

pub open spec fn text_view(o: Option<String>) -> Option<Seq<char>> {
    match o {
        Some(s) => Some(s@),
        None => None,
    }
}

/// The value given, else the one read from the executable, else none.
pub open spec fn chosen(given: Option<String>, found: Option<VersionInfo>, field: spec_fn(
    VersionInfo,
) -> Option<String>) -> Option<Seq<char>> {
    if given is Some {
        text_view(given)
    } else {
        match found {
            Some(info) => text_view(field(info)),
            None => None,
        }
    }
}

/// Reads the version resource of an executable. No reader is wired in:
/// the result is always absent, and every field falls back to what the
/// caller gives.
pub fn extract_version_info<P>(_path: P) -> (r: Option<VersionInfo>)
    ensures
        r is None,
{
    None
}

fn choose_text(given: &Option<String>, found: &Option<String>) -> (r: Option<String>)
    ensures
        given is Some ==> text_view(r) == text_view(*given),
        given is None ==> text_view(r) == text_view(*found),
{
    match given {
        Some(s) => Some(s.clone()),
        None => match found {
            Some(s) => Some(s.clone()),
            None => None,
        },
    }
}

/// The version strings to embed: each field given on the command line
/// wins; an unset one takes the value read from the input executable.
pub fn resolve_version_info(given: &VersionInfo, found: &Option<VersionInfo>) -> (r: VersionInfo)
    ensures
        text_view(r.product_name) == chosen(given.product_name, *found, |i: VersionInfo| i.product_name),
        text_view(r.company_name) == chosen(given.company_name, *found, |i: VersionInfo| i.company_name),
        text_view(r.file_description) == chosen(
            given.file_description,
            *found,
            |i: VersionInfo| i.file_description,
        ),
        text_view(r.product_version) == chosen(
            given.product_version,
            *found,
            |i: VersionInfo| i.product_version,
        ),
        text_view(r.file_version) == chosen(given.file_version, *found, |i: VersionInfo| i.file_version),
        text_view(r.copyright) == chosen(given.copyright, *found, |i: VersionInfo| i.copyright),
{
    let blank = VersionInfo {
        product_name: None,
        company_name: None,
        file_description: None,
        product_version: None,
        file_version: None,
        copyright: None,
    };
    let info = match found {
        Some(info) => info,
        None => &blank,
    };
    VersionInfo {
        product_name: choose_text(&given.product_name, &info.product_name),
        company_name: choose_text(&given.company_name, &info.company_name),
        file_description: choose_text(&given.file_description, &info.file_description),
        product_version: choose_text(&given.product_version, &info.product_version),
        file_version: choose_text(&given.file_version, &info.file_version),
        copyright: choose_text(&given.copyright, &info.copyright),
    }
}

} // verus!
