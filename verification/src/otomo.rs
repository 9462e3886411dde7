//! Identifiers of companion equipment: two enums of the catalog with their
//! raw encodings, icons and tags.

use vstd::prelude::*;
use crate::error::{ErrorKind, ErrorKindView, RszError, RszErrorView};
use crate::text::{push_padded, signed_padded};

verus! {

/// The identifier of a piece of companion armor.
#[derive(Debug, Clone, Copy, PartialEq, Eq, Hash, Structural)]
pub enum OtArmorId {
    Unset,
    AirouHead(u32),
    AirouChest(u32),
    DogHead(u32),
    DogChest(u32),
}

impl OtArmorId {
    /// What `raw` stands for, if anything.
    pub open spec fn decode(raw: u32) -> Option<OtArmorId> {
        if raw == 0x2000_0000 {
            Some(OtArmorId::Unset)
        } else if 0x2010_0000 <= raw <= 0x2010_FFFF {
            Some(OtArmorId::AirouHead((raw - 0x2010_0000) as u32))
        } else if 0x2020_0000 <= raw <= 0x2020_FFFF {
            Some(OtArmorId::AirouChest((raw - 0x2020_0000) as u32))
        } else if 0x2030_0000 <= raw <= 0x2030_FFFF {
            Some(OtArmorId::DogHead((raw - 0x2030_0000) as u32))
        } else if 0x2040_0000 <= raw <= 0x2040_FFFF {
            Some(OtArmorId::DogChest((raw - 0x2040_0000) as u32))
        } else {
            None
        }
    }

    /// The raw value that the identifier is stored as.
    pub open spec fn encode(self) -> int {
        match self {
            OtArmorId::Unset => 0x2000_0000,
            OtArmorId::AirouHead(i) => i + 0x2010_0000,
            OtArmorId::AirouChest(i) => i + 0x2020_0000,
            OtArmorId::DogHead(i) => i + 0x2030_0000,
            OtArmorId::DogChest(i) => i + 0x2040_0000,
        }
    }

    /// Whether the identifier is one that some raw value stands for.
    pub open spec fn in_range(self) -> bool {
        match self {
            OtArmorId::Unset => true,
            OtArmorId::AirouHead(i) => i <= 0xFFFF,
            OtArmorId::AirouChest(i) => i <= 0xFFFF,
            OtArmorId::DogHead(i) => i <= 0xFFFF,
            OtArmorId::DogChest(i) => i <= 0xFFFF,
        }
    }

    /// Decodes a raw value; fails with `UnknownEnumValue` where it stands
    /// for nothing.
    pub fn from_raw(raw: u32) -> (r: Result<OtArmorId, RszError>)
        ensures
            match r {
                Ok(id) => Self::decode(raw) == Some(id),
                Err(e) => Self::decode(raw) is None && e@ == RszErrorView::bare(
                    ErrorKindView::UnknownEnumValue { raw: raw as i64, enum_name: "OtArmorId"@ },
                ),
            },
    {
        if raw == 0x2000_0000 {
            Ok(OtArmorId::Unset)
        } else if 0x2010_0000 <= raw && raw <= 0x2010_FFFF {
            Ok(OtArmorId::AirouHead(raw - 0x2010_0000))
        } else if 0x2020_0000 <= raw && raw <= 0x2020_FFFF {
            Ok(OtArmorId::AirouChest(raw - 0x2020_0000))
        } else if 0x2030_0000 <= raw && raw <= 0x2030_FFFF {
            Ok(OtArmorId::DogHead(raw - 0x2030_0000))
        } else if 0x2040_0000 <= raw && raw <= 0x2040_FFFF {
            Ok(OtArmorId::DogChest(raw - 0x2040_0000))
        } else {
            Err(
                RszError::new(
                    ErrorKind::UnknownEnumValue {
                        raw: raw as i64,
                        enum_name: String::from_str("OtArmorId"),
                    },
                ),
            )
        }
    }

    /// Encodes the identifier; `None` where no raw value stands for it.
    pub fn into_raw(self) -> (r: Option<u32>)
        ensures
            r is Some <==> self.in_range(),
            r matches Some(raw) ==> raw == self.encode(),
    {
        match self {
            OtArmorId::Unset => Some(0x2000_0000),
            OtArmorId::AirouHead(i) => if i <= 0xFFFF {
                Some(i + 0x2010_0000)
            } else {
                None
            },
            OtArmorId::AirouChest(i) => if i <= 0xFFFF {
                Some(i + 0x2020_0000)
            } else {
                None
            },
            OtArmorId::DogHead(i) => if i <= 0xFFFF {
                Some(i + 0x2030_0000)
            } else {
                None
            },
            OtArmorId::DogChest(i) => if i <= 0xFFFF {
                Some(i + 0x2040_0000)
            } else {
                None
            },
        }
    }

    /// The index of the icon that shows this kind of armor.
    pub fn icon_index(self) -> (index: u32)
        ensures
            index == match self {
                OtArmorId::Unset => 0u32,
                OtArmorId::AirouHead(_) => 13u32,
                OtArmorId::AirouChest(_) => 14u32,
                OtArmorId::DogHead(_) => 34u32,
                OtArmorId::DogChest(_) => 35u32,
            },
    {
        match self {
            OtArmorId::Unset => 0,
            OtArmorId::AirouHead(_) => 13,
            OtArmorId::AirouChest(_) => 14,
            OtArmorId::DogHead(_) => 34,
            OtArmorId::DogChest(_) => 35,
        }
    }
}

/// Every raw value that stands for an armor identifier is recovered from
/// it, and every identifier in range from its raw value.
pub proof fn lemma_armor_id_round_trip(raw: u32, id: OtArmorId)
    ensures
        OtArmorId::decode(raw) matches Some(v) ==> v.in_range() && v.encode() == raw,
        id.in_range() ==> OtArmorId::decode(id.encode() as u32) == Some(id),
{
}

/// The identifier of a series of companion equipment.
#[derive(Debug, Clone, Copy, PartialEq, Eq, PartialOrd, Ord, Structural)]
pub enum OtEquipSeriesId {
    Airou(i32),
    Dog(i32),
}

impl OtEquipSeriesId {
    /// What `raw` stands for, if anything.
    pub open spec fn decode(raw: i32) -> Option<OtEquipSeriesId> {
        if 0 <= raw <= 0xFFFF {
            Some(OtEquipSeriesId::Airou(raw))
        } else if 0x1_0000 <= raw <= 0x1_FFFF {
            Some(OtEquipSeriesId::Dog((raw - 0x1_0000) as i32))
        } else {
            None
        }
    }

    /// The raw value that the identifier is stored as.
    pub open spec fn encode(self) -> int {
        match self {
            OtEquipSeriesId::Airou(i) => i as int,
            OtEquipSeriesId::Dog(i) => i + 0x1_0000,
        }
    }

    /// Whether the identifier is one that some raw value stands for.
    pub open spec fn in_range(self) -> bool {
        match self {
            OtEquipSeriesId::Airou(i) => 0 <= i <= 0xFFFF,
            OtEquipSeriesId::Dog(i) => 0 <= i <= 0xFFFF,
        }
    }

    /// The tag of the series as text.
    pub open spec fn tag(self) -> Seq<char> {
        match self {
            OtEquipSeriesId::Airou(i) => "Airou_"@ + signed_padded(i as int, 3),
            OtEquipSeriesId::Dog(i) => "Dog_"@ + signed_padded(i as int, 3),
        }
    }

    /// Decodes a raw value; fails with `UnknownEnumValue` where it stands
    /// for nothing.
    pub fn from_raw(raw: i32) -> (r: Result<OtEquipSeriesId, RszError>)
        ensures
            match r {
                Ok(id) => Self::decode(raw) == Some(id),
                Err(e) => Self::decode(raw) is None && e@ == RszErrorView::bare(
                    ErrorKindView::UnknownEnumValue {
                        raw: raw as i64,
                        enum_name: "OtEquipSeriesId"@,
                    },
                ),
            },
    {
        if 0 <= raw && raw <= 0xFFFF {
            Ok(OtEquipSeriesId::Airou(raw))
        } else if 0x1_0000 <= raw && raw <= 0x1_FFFF {
            Ok(OtEquipSeriesId::Dog(raw - 0x1_0000))
        } else {
            Err(
                RszError::new(
                    ErrorKind::UnknownEnumValue {
                        raw: raw as i64,
                        enum_name: String::from_str("OtEquipSeriesId"),
                    },
                ),
            )
        }
    }

    /// Encodes the identifier; `None` where no raw value stands for it.
    pub fn into_raw(self) -> (r: Option<i32>)
        ensures
            r is Some <==> self.in_range(),
            r matches Some(raw) ==> raw == self.encode(),
    {
        match self {
            OtEquipSeriesId::Airou(i) => if 0 <= i && i <= 0xFFFF {
                Some(i)
            } else {
                None
            },
            OtEquipSeriesId::Dog(i) => if 0 <= i && i <= 0xFFFF {
                Some(i + 0x1_0000)
            } else {
                None
            },
        }
    }

    /// The tag of the series: its kind, an underscore, and its number with
    /// at least three digits.
    pub fn to_tag(self) -> (s: String)
        ensures
            s@ == self.tag(),
    {
        match self {
            OtEquipSeriesId::Airou(i) => {
                let mut out = String::from_str("Airou_");
                push_padded(&mut out, i as i64, 3);
                out
            },
            OtEquipSeriesId::Dog(i) => {
                let mut out = String::from_str("Dog_");
                push_padded(&mut out, i as i64, 3);
                out
            },
        }
    }
}

/// Every raw value that stands for a series identifier is recovered from
/// it, and every identifier in range from its raw value.
pub proof fn lemma_series_id_round_trip(raw: i32, id: OtEquipSeriesId)
    ensures
        OtEquipSeriesId::decode(raw) matches Some(v) ==> v.in_range() && v.encode() == raw,
        id.in_range() ==> OtEquipSeriesId::decode(id.encode() as i32) == Some(id),
{
}

} // verus!
