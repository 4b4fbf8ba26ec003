//! The values that a display reports of itself: a VCP value, an MCCS
//! version, and the capabilities that a capability string spells out.

use crate::lex::same_text;
use std::collections::BTreeMap;
use vstd::prelude::*;

verus! {

/// An error that cannot occur: a type without values. Its one variant holds
/// a value of a type that has none.
#[derive(Debug, Clone, Copy, PartialEq, Eq)]
pub enum Void {
    /// Never there.
    Never(core::convert::Infallible),
}

/// VCP feature code.
pub type FeatureCode = u8;

/// Extended Display Identification Data.
pub type EdidData = Vec<u8>;

/// Video Display Information Format.
pub type VdifData = Vec<u8>;

/// The values of a VCP feature, each with the name it has, if any.
pub type ValueNames = BTreeMap<u8, Option<String>>;

/// VCP value.
#[derive(Copy, Clone, Debug, PartialEq, Eq, PartialOrd, Ord, Hash, Structural)]
pub struct Value {
    /// The type of the value, continuous or non-continuous.
    pub ty: u8,
    /// The high byte of the maximum allowed value.
    pub mh: u8,
    /// The low byte of the maximum allowed value.
    pub ml: u8,
    /// The high byte of the value.
    pub sh: u8,
    /// The low byte of the value.
    pub sl: u8,
}

/// The 16-bit number that a high and a low byte make.
pub open spec fn word(high: u8, low: u8) -> int {
    high * 256 + low
}

impl Default for Value {
    fn default() -> (v: Self)
        ensures
            v == (Value { ty: 0, mh: 0, ml: 0, sh: 0, sl: 0 }),
    {
        Value { ty: 0, mh: 0, ml: 0, sh: 0, sl: 0 }
    }
}

impl Value {
    /// A value from its number; the other fields are zero.
    pub fn from_value(v: u16) -> (r: Self)
        ensures
            word(r.sh, r.sl) == v,
            r.ty == 0 && r.mh == 0 && r.ml == 0,
    {
        let high: u16 = v >> 8;
        let low: u16 = v & 0xff;
        assert(high <= 0xff && low <= 0xff && high * 256 + low == v) by (bit_vector)
            requires
                high == v >> 8,
                low == v & 0xff,
        ;
        Value { ty: 0, mh: 0, ml: 0, sh: high as u8, sl: low as u8 }
    }

    /// The value bytes as one number.
    pub fn value(&self) -> (r: u16)
        ensures
            r == word(self.sh, self.sl),
    {
        let high: u16 = self.sh as u16;
        let low: u16 = self.sl as u16;
        let r: u16 = (high << 8) | low;
        assert(r == high * 256 + low) by (bit_vector)
            requires
                r == (high << 8) | low,
                high <= 0xff,
                low <= 0xff,
        ;
        r
    }

    /// The maximum value bytes as one number.
    pub fn maximum(&self) -> (r: u16)
        ensures
            r == word(self.mh, self.ml),
    {
        let high: u16 = self.mh as u16;
        let low: u16 = self.ml as u16;
        let r: u16 = (high << 8) | low;
        assert(r == high * 256 + low) by (bit_vector)
            requires
                r == (high << 8) | low,
                high <= 0xff,
                low <= 0xff,
        ;
        r
    }
}

/// Monitor Command Control Set specification version code.
#[derive(Debug, Copy, Clone, PartialEq, Eq, PartialOrd, Ord, Hash, Structural)]
pub struct Version {
    /// Major version number.
    pub major: u8,
    /// Minor revision version.
    pub minor: u8,
}

impl Default for Version {
    fn default() -> (v: Self)
        ensures
            v == (Version { major: 0, minor: 0 }),
    {
        Version { major: 0, minor: 0 }
    }
}

impl Version {
    /// The version with the given number and revision.
    pub fn new(major: u8, minor: u8) -> (v: Self)
        ensures
            v.major == major,
            v.minor == minor,
    {
        Version { major, minor }
    }

    /// The place of the version among all versions: they are ordered by
    /// major number, then by minor.
    pub open spec fn rank(self) -> int {
        self.major * 256 + self.minor
    }
}

/// Display protocol class.
#[derive(Debug, Clone, PartialEq, Eq, PartialOrd, Ord, Hash)]
pub enum Protocol {
    /// Standard monitor.
    Monitor,
    /// Named by the MCCS specification, and not seen elsewhere.
    Display,
    /// Unrecognized protocol class.
    Unknown(String),
}

/// A protocol class as plain values.
pub enum ProtocolView {
    Monitor,
    Display,
    Unknown(Seq<char>),
}

/// The protocol class that a text names.
pub open spec fn protocol_named(s: Seq<char>) -> ProtocolView {
    if s == "monitor"@ {
        ProtocolView::Monitor
    } else if s == "display"@ {
        ProtocolView::Display
    } else {
        ProtocolView::Unknown(s)
    }
}

impl View for Protocol {
    type V = ProtocolView;

    open spec fn view(&self) -> ProtocolView {
        match self {
            Protocol::Monitor => ProtocolView::Monitor,
            Protocol::Display => ProtocolView::Display,
            Protocol::Unknown(s) => ProtocolView::Unknown(s@),
        }
    }
}

impl Protocol {
    /// The protocol class that `s` names.
    pub fn named(s: &str) -> (p: Self)
        ensures
            p@ == protocol_named(s@),
    {
        if same_text(s, "monitor") {
            Protocol::Monitor
        } else if same_text(s, "display") {
            Protocol::Display
        } else {
            Protocol::Unknown(s.to_owned())
        }
    }

    /// The name of the protocol class.
    pub fn as_str(&self) -> (s: &str)
        ensures
            match self@ {
                ProtocolView::Monitor => s@ == "monitor"@,
                ProtocolView::Display => s@ == "display"@,
                ProtocolView::Unknown(name) => s@ == name,
            },
    {
        match self {
            Protocol::Monitor => "monitor",
            Protocol::Display => "display",
            Protocol::Unknown(s) => s.as_str(),
        }
    }
}

impl<'a> From<&'a str> for Protocol {
    /// The protocol class that `s` names.
    fn from(s: &'a str) -> (p: Self)
        ensures
            p@ == protocol_named(s@),
    {
        Protocol::named(s)
    }
}

impl<'a> vstd::std_specs::convert::FromSpecImpl<&'a str> for Protocol {
    open spec fn obeys_from_spec() -> bool {
        false
    }

    open spec fn from_spec(s: &'a str) -> Self {
        arbitrary()
    }
}

impl std::str::FromStr for Protocol {
    type Err = Void;

    /// The protocol class that `s` names; this never fails.
    fn from_str(s: &str) -> (r: Result<Self, Void>)
        ensures
            r matches Ok(p) && p@ == protocol_named(s@),
    {
        Ok(Protocol::named(s))
    }
}

/// Display type.
#[derive(Debug, Clone, PartialEq, Eq, PartialOrd, Ord, Hash)]
pub enum Type {
    /// Cathode Ray Tube display.
    Crt,
    /// Liquid Crystal Display.
    Lcd,
    /// Also an LCD.
    Led,
    /// Unrecognized display type.
    Unknown(String),
}

/// A display type as plain values.
pub enum TypeView {
    Crt,
    Lcd,
    Led,
    Unknown(Seq<char>),
}

impl View for Type {
    type V = TypeView;

    open spec fn view(&self) -> TypeView {
        match self {
            Type::Crt => TypeView::Crt,
            Type::Lcd => TypeView::Lcd,
            Type::Led => TypeView::Led,
            Type::Unknown(s) => TypeView::Unknown(s@),
        }
    }
}

/// A byte with an ASCII capital letter turned into its small one.
pub open spec fn lowered(b: u8) -> u8 {
    if 0x41 <= b <= 0x5a {
        (b + 0x20) as u8
    } else {
        b
    }
}

/// Whether the bytes `s` are the three small letters given, in either case.
pub open spec fn spells(s: Seq<u8>, a: u8, b: u8, c: u8) -> bool {
    s.len() == 3 && lowered(s[0]) == a && lowered(s[1]) == b && lowered(s[2]) == c
}

/// The display type that a text names: `crt`, `lcd` and `led` in either
/// case, by the bytes of the text's encoding.
pub open spec fn type_named(s: Seq<char>) -> TypeView {
    let bytes = vstd::utf8::encode_utf8(s);
    if spells(bytes, 0x63, 0x72, 0x74) {
        TypeView::Crt
    } else if spells(bytes, 0x6c, 0x63, 0x64) {
        TypeView::Lcd
    } else if spells(bytes, 0x6c, 0x65, 0x64) {
        TypeView::Led
    } else {
        TypeView::Unknown(s)
    }
}

fn lower(b: u8) -> (r: u8)
    ensures
        r == lowered(b),
{
    if 0x41 <= b && b <= 0x5a {
        b + 0x20
    } else {
        b
    }
}

fn spelled(s: &[u8], a: u8, b: u8, c: u8) -> (r: bool)
    ensures
        r == spells(s@, a, b, c),
{
    s.len() == 3 && lower(s[0]) == a && lower(s[1]) == b && lower(s[2]) == c
}

impl Type {
    /// The display type that `s` names.
    pub fn named(s: &str) -> (t: Self)
        ensures
            t@ == type_named(s@),
    {
        let bytes = s.as_bytes();
        if spelled(bytes, 0x63, 0x72, 0x74) {
            Type::Crt
        } else if spelled(bytes, 0x6c, 0x63, 0x64) {
            Type::Lcd
        } else if spelled(bytes, 0x6c, 0x65, 0x64) {
            Type::Led
        } else {
            Type::Unknown(s.to_owned())
        }
    }

    /// The name of the display type.
    pub fn as_str(&self) -> (s: &str)
        ensures
            match self@ {
                TypeView::Crt => s@ == "crt"@,
                TypeView::Lcd => s@ == "lcd"@,
                TypeView::Led => s@ == "led"@,
                TypeView::Unknown(name) => s@ == name,
            },
    {
        match self {
            Type::Crt => "crt",
            Type::Lcd => "lcd",
            Type::Led => "led",
            Type::Unknown(s) => s.as_str(),
        }
    }
}

impl<'a> From<&'a str> for Type {
    /// The display type that `s` names.
    fn from(s: &'a str) -> (t: Self)
        ensures
            t@ == type_named(s@),
    {
        Type::named(s)
    }
}

impl<'a> vstd::std_specs::convert::FromSpecImpl<&'a str> for Type {
    open spec fn obeys_from_spec() -> bool {
        false
    }

    open spec fn from_spec(s: &'a str) -> Self {
        arbitrary()
    }
}

impl std::str::FromStr for Type {
    type Err = Void;

    /// The display type that `s` names; this never fails.
    fn from_str(s: &str) -> (r: Result<Self, Void>)
        ensures
            r matches Ok(t) && t@ == type_named(s@),
    {
        Ok(Type::named(s))
    }
}

/// Descriptive information about a supported VCP feature code.
#[derive(Debug, Clone, PartialEq, Eq, PartialOrd, Ord, Hash)]
pub struct VcpDescriptor {
    /// The name of the feature code, if different from the standard one.
    pub name: Option<String>,
    /// Allowed values for this feature, and optionally their names.
    pub values: ValueNames,
}

/// A name, where there is one, as plain values.
pub open spec fn opt_text(name: Option<String>) -> Option<Seq<char>> {
    match name {
        Some(s) => Some(s@),
        None => None,
    }
}

/// The values of a feature and their names, as plain values.
pub open spec fn values_view(values: Map<u8, Option<String>>) -> Map<u8, Option<Seq<char>>> {
    Map::new(|k: u8| values.contains_key(k), |k: u8| opt_text(values[k]))
}

/// A `VcpDescriptor` as plain values.
pub struct DescriptorView {
    pub name: Option<Seq<char>>,
    pub values: Map<u8, Option<Seq<char>>>,
}

impl View for VcpDescriptor {
    type V = DescriptorView;

    open spec fn view(&self) -> DescriptorView {
        DescriptorView { name: opt_text(self.name), values: values_view(self.values@) }
    }
}

/// The descriptors of the features, as plain values.
pub open spec fn features_view(m: Map<u8, VcpDescriptor>) -> Map<u8, DescriptorView> {
    Map::new(|k: u8| m.contains_key(k), |k: u8| m[k]@)
}

impl Default for VcpDescriptor {
    fn default() -> (d: Self)
        ensures
            d@ == (DescriptorView { name: None, values: Map::empty() }),
    {
        let d = VcpDescriptor { name: None, values: BTreeMap::new() };
        assert(d@.values =~= Map::empty());
        d
    }
}

impl VcpDescriptor {
    /// The allowed values for this feature code, smallest first.
    pub fn values(&self) -> (keys: Vec<u8>)
        ensures
            keys@ == ascending(self.values@.dom(), 0),
    {
        let mut keys: Vec<u8> = Vec::new();
        let mut k: u8 = 0;
        loop
            invariant_except_break
                keys@ + ascending(self.values@.dom(), k as int) == ascending(self.values@.dom(), 0),
            ensures
                keys@ == ascending(self.values@.dom(), 0),
            decreases 256 - k,
        {
            let ghost before = keys@;
            if self.values.contains_key(&k) {
                keys.push(k);
            }
            assert(before + ascending(self.values@.dom(), k as int) =~= keys@ + ascending(
                self.values@.dom(),
                k + 1,
            ));
            if k == 255 {
                assert(keys@ + ascending(self.values@.dom(), 256) =~= keys@);
                break ;
            }
            k = k + 1;
        }
        keys
    }
}

/// The members of a set of bytes from `from` on, smallest first.
pub open spec fn ascending(set: Set<u8>, from: int) -> Seq<u8>
    decreases 256 - from,
{
    if from < 0 || from >= 256 {
        Seq::empty()
    } else if set.contains(from as u8) {
        seq![from as u8] + ascending(set, from + 1)
    } else {
        ascending(set, from + 1)
    }
}

/// Data that can be contained in a capability entry.
#[derive(Debug, Clone, PartialEq, Eq, PartialOrd, Ord, Hash)]
pub enum UnknownData {
    /// UTF-8 text.
    String(String),
    /// Data that is not valid UTF-8.
    StringBytes(Vec<u8>),
    /// Length-prefixed binary data.
    Binary(Vec<u8>),
}

/// The data of an unrecognized entry as plain values.
pub enum UnknownDataView {
    String(Seq<char>),
    StringBytes(Seq<u8>),
    Binary(Seq<u8>),
}

impl View for UnknownData {
    type V = UnknownDataView;

    open spec fn view(&self) -> UnknownDataView {
        match self {
            UnknownData::String(s) => UnknownDataView::String(s@),
            UnknownData::StringBytes(b) => UnknownDataView::StringBytes(b@),
            UnknownData::Binary(b) => UnknownDataView::Binary(b@),
        }
    }
}

/// An unrecognized entry in the capability string.
#[derive(Debug, Clone, PartialEq, Eq, PartialOrd, Ord, Hash)]
pub struct UnknownTag {
    /// The name of the entry.
    pub name: String,
    /// The data contained in the entry, usually an unparsed string.
    pub data: UnknownData,
}

/// An unrecognized entry as plain values.
pub struct UnknownTagView {
    pub name: Seq<char>,
    pub data: UnknownDataView,
}

impl View for UnknownTag {
    type V = UnknownTagView;

    open spec fn view(&self) -> UnknownTagView {
        UnknownTagView { name: self.name@, data: self.data@ }
    }
}

/// Parsed display capabilities string.
#[derive(Debug, Clone, PartialEq, Eq, PartialOrd, Ord, Hash)]
pub struct Capabilities {
    /// The protocol class.
    pub protocol: Option<Protocol>,
    /// The type of display.
    pub ty: Option<Type>,
    /// The model name or number of the display.
    pub model: Option<String>,
    /// The supported VCP commands.
    pub commands: Vec<u8>,
    /// A value of `1` seems to say that the display passed Microsoft's
    /// Windows Hardware Quality Labs testing.
    pub ms_whql: Option<u8>,
    /// Monitor Command Control Set version code.
    pub mccs_version: Option<Version>,
    /// Virtual Control Panel feature code descriptors.
    pub vcp_features: BTreeMap<FeatureCode, VcpDescriptor>,
    /// Extended Display Identification Data.
    pub edid: Option<EdidData>,
    /// Video Display Information Format blocks.
    pub vdif: Vec<VdifData>,
    /// Additional unrecognized data from the capability string.
    pub unknown_tags: Vec<UnknownTag>,
}

/// `Capabilities` as plain values.
pub struct CapabilitiesView {
    pub protocol: Option<ProtocolView>,
    pub ty: Option<TypeView>,
    pub model: Option<Seq<char>>,
    pub commands: Seq<u8>,
    pub ms_whql: Option<u8>,
    pub mccs_version: Option<Version>,
    pub vcp_features: Map<u8, DescriptorView>,
    pub edid: Option<Seq<u8>>,
    pub vdif: Seq<Seq<u8>>,
    pub unknown_tags: Seq<UnknownTagView>,
}

impl View for Capabilities {
    type V = CapabilitiesView;

    open spec fn view(&self) -> CapabilitiesView {
        CapabilitiesView {
            protocol: match self.protocol {
                Some(p) => Some(p@),
                None => None,
            },
            ty: match self.ty {
                Some(t) => Some(t@),
                None => None,
            },
            model: opt_text(self.model),
            commands: self.commands@,
            ms_whql: self.ms_whql,
            mccs_version: self.mccs_version,
            vcp_features: features_view(self.vcp_features@),
            edid: match self.edid {
                Some(d) => Some(d@),
                None => None,
            },
            vdif: Seq::new(self.vdif@.len(), |k: int| self.vdif@[k]@),
            unknown_tags: Seq::new(self.unknown_tags@.len(), |k: int| self.unknown_tags@[k]@),
        }
    }
}

/// The capabilities of a display that reports none.
pub open spec fn no_capabilities() -> CapabilitiesView {
    CapabilitiesView {
        protocol: None,
        ty: None,
        model: None,
        commands: Seq::empty(),
        ms_whql: None,
        mccs_version: None,
        vcp_features: Map::empty(),
        edid: None,
        vdif: Seq::empty(),
        unknown_tags: Seq::empty(),
    }
}

impl Default for Capabilities {
    fn default() -> (c: Self)
        ensures
            c@ == no_capabilities(),
    {
        let c = Capabilities {
            protocol: None,
            ty: None,
            model: None,
            commands: Vec::new(),
            ms_whql: None,
            mccs_version: None,
            vcp_features: BTreeMap::new(),
            edid: None,
            vdif: Vec::new(),
            unknown_tags: Vec::new(),
        };
        assert(c@.vcp_features =~= Map::empty());
        assert(c@.commands =~= Seq::empty());
        assert(c@.vdif =~= Seq::empty());
        assert(c@.unknown_tags =~= Seq::empty());
        c
    }
}

} // verus!
