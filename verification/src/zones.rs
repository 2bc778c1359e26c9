//! Selection of the top-level domains (zones) a run operates on.

use vstd::prelude::*;

verus! {

/// The zones a user can ask for; `All` stands for every concrete zone.
#[derive(Clone, Copy, PartialEq, Eq, Structural, Debug)]
pub enum TopLevelDomains {
    All,
    Com,
    De,
    Fi,
    Fr,
    It,
    Es,
    Nl,
    ComBr,
    ComTr,
}

/// The domain string of one concrete zone; `All` has no single name.
pub open spec fn spec_zone_name(tld: TopLevelDomains) -> Seq<char> {
    match tld {
        TopLevelDomains::All => Seq::empty(),
        TopLevelDomains::Com => "com"@,
        TopLevelDomains::De => "de"@,
        TopLevelDomains::Fi => "fi"@,
        TopLevelDomains::Fr => "fr"@,
        TopLevelDomains::It => "it"@,
        TopLevelDomains::Es => "es"@,
        TopLevelDomains::Nl => "nl"@,
        TopLevelDomains::ComBr => "com.br"@,
        TopLevelDomains::ComTr => "com.tr"@,
    }
}

/// The list of concrete zone names a selection expands to: every zone for
/// `All`, and the single chosen zone otherwise.
pub open spec fn spec_zones_of(tld: TopLevelDomains) -> Seq<Seq<char>> {
    match tld {
        TopLevelDomains::All => seq![
            "com"@,
            "de"@,
            "fi"@,
            "fr"@,
            "it"@,
            "es"@,
            "nl"@,
            "com.br"@,
            "com.tr"@,
        ],
        other => seq![spec_zone_name(other)],
    }
}

/// Expands a zone selection into the concrete domain strings to visit.
pub fn parse_tld(tld: TopLevelDomains) -> (zones: Vec<String>)
    ensures
        zones.deep_view() == spec_zones_of(tld),
{
    let mut zones: Vec<String> = Vec::new();
    match tld {
        TopLevelDomains::All => {
            zones.push(String::from_str("com"));
            zones.push(String::from_str("de"));
            zones.push(String::from_str("fi"));
            zones.push(String::from_str("fr"));
            zones.push(String::from_str("it"));
            zones.push(String::from_str("es"));
            zones.push(String::from_str("nl"));
            zones.push(String::from_str("com.br"));
            zones.push(String::from_str("com.tr"));
        },
        TopLevelDomains::Com => zones.push(String::from_str("com")),
        TopLevelDomains::De => zones.push(String::from_str("de")),
        TopLevelDomains::Fi => zones.push(String::from_str("fi")),
        TopLevelDomains::Fr => zones.push(String::from_str("fr")),
        TopLevelDomains::It => zones.push(String::from_str("it")),
        TopLevelDomains::Es => zones.push(String::from_str("es")),
        TopLevelDomains::Nl => zones.push(String::from_str("nl")),
        TopLevelDomains::ComBr => zones.push(String::from_str("com.br")),
        TopLevelDomains::ComTr => zones.push(String::from_str("com.tr")),
    }
    proof {
        assert(zones.deep_view() =~= spec_zones_of(tld));
    }
    zones
}

} // verus!
