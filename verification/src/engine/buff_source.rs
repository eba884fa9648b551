//! Which imagine an effect comes from.

use vstd::prelude::*;

verus! {

/// The imagines whose effects bar a second use.
#[derive(Debug, Clone, Copy, PartialEq, Eq, Hash, Structural)]
pub enum BuffSourceKind {
    Tina,
    Aluna,
    Tarta,
    Basilisk,
    Other,
}

impl BuffSourceKind {
    /// The name of the imagine.
    pub open spec fn name(self) -> Seq<char> {
        match self {
            BuffSourceKind::Tina => "Tina"@,
            BuffSourceKind::Aluna => "Aluna"@,
            BuffSourceKind::Tarta => "Tarta"@,
            BuffSourceKind::Basilisk => "Basilisk"@,
            BuffSourceKind::Other => "Other"@,
        }
    }

    /// The imagine with this name, or `Other`.
    pub open spec fn named(s: Seq<char>) -> BuffSourceKind {
        if s == "Tina"@ {
            BuffSourceKind::Tina
        } else if s == "Aluna"@ {
            BuffSourceKind::Aluna
        } else if s == "Tarta"@ {
            BuffSourceKind::Tarta
        } else if s == "Basilisk"@ {
            BuffSourceKind::Basilisk
        } else {
            BuffSourceKind::Other
        }
    }

    /// The imagine with this name, or `Other`.
    pub fn from_str(s: &str) -> (kind: BuffSourceKind)
        ensures
            kind == BuffSourceKind::named(s@),
    {
        let s: String = s.to_owned();
        if s == "Tina".to_owned() {
            BuffSourceKind::Tina
        } else if s == "Aluna".to_owned() {
            BuffSourceKind::Aluna
        } else if s == "Tarta".to_owned() {
            BuffSourceKind::Tarta
        } else if s == "Basilisk".to_owned() {
            BuffSourceKind::Basilisk
        } else {
            BuffSourceKind::Other
        }
    }

    /// The name of the imagine.
    pub fn as_str(&self) -> (name: &'static str)
        ensures
            name@ == self.name(),
    {
        match self {
            BuffSourceKind::Tina => "Tina",
            BuffSourceKind::Aluna => "Aluna",
            BuffSourceKind::Tarta => "Tarta",
            BuffSourceKind::Basilisk => "Basilisk",
            BuffSourceKind::Other => "Other",
        }
    }
}

/// A name leads back to its imagine.
pub proof fn law_source_name_round_trip(kind: BuffSourceKind)
    ensures
        BuffSourceKind::named(kind.name()) == kind,
{
    reveal_strlit("Tina");
    reveal_strlit("Aluna");
    reveal_strlit("Tarta");
    reveal_strlit("Basilisk");
    reveal_strlit("Other");
    let tina = "Tina"@;
    let aluna = "Aluna"@;
    let tarta = "Tarta"@;
    let basilisk = "Basilisk"@;
    let other = "Other"@;
    assert(tina.len() == 4 && aluna.len() == 5 && tarta.len() == 5 && basilisk.len() == 8
        && other.len() == 5);
    assert(aluna[0] == 'A' && tarta[0] == 'T' && other[0] == 'O');
}

/// The imagine that an effect comes from.
pub open spec fn source_of(buff_config_id: i64) -> BuffSourceKind {
    if buff_config_id == 2110050 {
        BuffSourceKind::Basilisk
    } else if buff_config_id == 2110055 {
        BuffSourceKind::Tarta
    } else if buff_config_id == 2110056 {
        BuffSourceKind::Tina
    } else if buff_config_id == 2110057 {
        BuffSourceKind::Aluna
    } else {
        BuffSourceKind::Other
    }
}

/// The imagine that an effect comes from.
pub fn classify_buff(buff_config_id: i64) -> (kind: BuffSourceKind)
    ensures
        kind == source_of(buff_config_id),
{
    match buff_config_id {
        2110050 => BuffSourceKind::Basilisk,
        2110055 => BuffSourceKind::Tarta,
        2110056 => BuffSourceKind::Tina,
        2110057 => BuffSourceKind::Aluna,
        _ => BuffSourceKind::Other,
    }
}

} // verus!
