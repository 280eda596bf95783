//! Reads what a driver says of its camera-control properties.
//!
//! A driver describes a property in a block of bytes: forty bytes about the
//! property itself, then lists of members, each behind a header of sixteen bytes.

use vstd::prelude::*;

verus! {

/// Flag with which a driver is asked for the description of a property.
pub const PROPERTY_TYPE_BASICSUPPORT: u32 = 512;

/// Bytes of the buffer that a driver fills.
pub const SUPPORT_BUFFER_SIZE: usize = 1024;

/// Bytes about the property itself.
pub const DESCRIPTION_SIZE: usize = 40;

/// Where the number of member lists stands.
pub const LIST_COUNT_OFFSET: usize = 32;

/// Bytes of the header of a member list.
pub const HEADER_SIZE: usize = 16;

/// Bytes of a stepped range.
pub const STEPPING_SIZE: usize = 16;

/// Bytes of a plain range.
pub const BOUNDS_SIZE: usize = 8;

pub const MEMBER_RANGES: u32 = 1;

pub const MEMBER_STEPPED_RANGES: u32 = 2;

pub const MEMBER_VALUES: u32 = 3;

/// Properties that a driver is asked about.
#[derive(Copy, Clone, Debug, Eq, PartialEq, Structural)]
pub enum ControlProperty {
    Pan,
    Tilt,
    PanTilt,
    PanRelative,
    TiltRelative,
    PanTiltRelative,
}

impl ControlProperty {
    pub fn name(self) -> (r: &'static str)
        ensures
            r@ == (match self {
                ControlProperty::Pan => "PAN"@,
                ControlProperty::Tilt => "TILT"@,
                ControlProperty::PanTilt => "PANTILT"@,
                ControlProperty::PanRelative => "PAN_RELATIVE"@,
                ControlProperty::TiltRelative => "TILT_RELATIVE"@,
                ControlProperty::PanTiltRelative => "PANTILT_RELATIVE"@,
            }),
    {
        match self {
            ControlProperty::Pan => "PAN",
            ControlProperty::Tilt => "TILT",
            ControlProperty::PanTilt => "PANTILT",
            ControlProperty::PanRelative => "PAN_RELATIVE",
            ControlProperty::TiltRelative => "TILT_RELATIVE",
            ControlProperty::PanTiltRelative => "PANTILT_RELATIVE",
        }
    }

    /// Number by which drivers know the property.
    pub fn id(self) -> (r: u32)
        ensures
            r == (match self {
                ControlProperty::Pan => 0u32,
                ControlProperty::Tilt => 1,
                ControlProperty::PanTilt => 9,
                ControlProperty::PanRelative => 10,
                ControlProperty::TiltRelative => 11,
                ControlProperty::PanTiltRelative => 17,
            }),
    {
        match self {
            ControlProperty::Pan => 0,
            ControlProperty::Tilt => 1,
            ControlProperty::PanTilt => 9,
            ControlProperty::PanRelative => 10,
            ControlProperty::TiltRelative => 11,
            ControlProperty::PanTiltRelative => 17,
        }
    }
}

/// Whether an access mask lets a property be read: its lowest bit.
pub fn can_get(access: u32) -> (r: bool)
    ensures
        r == (access % 2 == 1),
{
    access % 2 == 1
}

/// Whether an access mask lets a property be written: its second bit.
pub fn can_set(access: u32) -> (r: bool)
    ensures
        r == (access / 2 % 2 == 1),
{
    access / 2 % 2 == 1
}

/// The link at `index` could be read and is the one looked for.
pub open spec fn links_to(links: Seq<Option<String>>, id: Seq<char>, index: int) -> bool {
    links[index] matches Some(link) && link@ == id
}

/// The first of the sources whose link is the device's; a link that could not be
/// read is passed over.
pub fn find_source(links: &Vec<Option<String>>, id: &String) -> (r: Option<usize>)
    ensures
        match r {
            Some(index) => {
                &&& index < links@.len()
                &&& links_to(links@, id@, index as int)
                &&& forall|i: int| 0 <= i < index ==> !#[trigger] links_to(links@, id@, i)
            },
            None => forall|i: int| 0 <= i < links@.len() ==> !#[trigger] links_to(links@, id@, i),
        },
{
    let mut i: usize = 0;
    while i < links.len()
        invariant
            i <= links@.len(),
            forall|k: int| 0 <= k < i ==> !#[trigger] links_to(links@, id@, k),
        decreases links.len() - i,
    {
        if let Some(link) = &links[i] {
            if *link == *id {
                return Some(i);
            }
        }
        i += 1;
    }
    None
}

/// Four bytes as a number, the lowest first.
pub open spec fn word_at(bytes: Seq<u8>, offset: int) -> int {
    bytes[offset] + 0x100 * bytes[offset + 1] + 0x1_0000 * bytes[offset + 2] + 0x100_0000
        * bytes[offset + 3]
}

/// Four bytes as a signed number.
pub open spec fn signed_at(bytes: Seq<u8>, offset: int) -> int {
    let word = word_at(bytes, offset);
    if word < 0x8000_0000 {
        word
    } else {
        word - 0x1_0000_0000
    }
}

fn read_word(bytes: &Vec<u8>, offset: usize) -> (r: u32)
    requires
        offset + 4 <= bytes@.len(),
    ensures
        r == word_at(bytes@, offset as int),
{
    assert(bytes.len() <= usize::MAX);
    bytes[offset] as u32 + 0x100 * bytes[offset + 1] as u32 + 0x1_0000 * bytes[offset + 2] as u32
        + 0x100_0000 * bytes[offset + 3] as u32
}

fn read_signed(bytes: &Vec<u8>, offset: usize) -> (r: i32)
    requires
        offset + 4 <= bytes@.len(),
    ensures
        r == signed_at(bytes@, offset as int),
{
    let word: u32 = read_word(bytes, offset);
    if word < 0x8000_0000 {
        word as i32
    } else {
        -((0xFFFF_FFFF - word) as i32) - 1
    }
}

/// What stands before the members of a list.
#[derive(Copy, Clone, Debug, Eq, PartialEq, Structural)]
pub struct MembersHeader {
    pub members_flags: u32,
    pub members_size: u32,
    pub members_count: u32,
    pub flags: u32,
}

/// One line of a report.
#[derive(Debug)]
pub enum SupportLine {
    BytesReturned(u32),
    NoDescription,
    AccessMask(u32),
    DescriptionSize(u32),
    MemberLists(u32),
    List { list: u32, header: MembersHeader },
    TruncatedHeader { list: u32 },
    SteppedRange { member: u32, minimum: i32, maximum: i32, step: u32 },
    TruncatedSteppedRange { member: u32 },
    Words(Vec<i32>),
    TruncatedRange { member: u32 },
    /// A range that has the size of a stepped one.
    SteppingLayout { minimum: i32, maximum: i32, step: u32, reserved: u32 },
    Range { member: u32, minimum: i32, maximum: i32 },
    UnexpectedSize { member: u32, size: u32 },
    Value { member: u32, value: i32 },
    TruncatedValue { member: u32 },
    UnknownMembers(u32),
}

/// One line of a report, as a number or two of it are read.
#[verifier::ext_equal]
pub enum LineModel {
    BytesReturned(int),
    NoDescription,
    AccessMask(int),
    DescriptionSize(int),
    MemberLists(int),
    List { list: u32, header: MembersHeader },
    TruncatedHeader { list: u32 },
    SteppedRange { member: u32, minimum: int, maximum: int, step: int },
    TruncatedSteppedRange { member: u32 },
    Words(Seq<int>),
    TruncatedRange { member: u32 },
    SteppingLayout { minimum: int, maximum: int, step: int, reserved: int },
    Range { member: u32, minimum: int, maximum: int },
    UnexpectedSize { member: u32, size: u32 },
    Value { member: u32, value: int },
    TruncatedValue { member: u32 },
    UnknownMembers(u32),
}

impl SupportLine {
    pub open spec fn view(&self) -> LineModel {
        match *self {
            SupportLine::BytesReturned(count) => LineModel::BytesReturned(count as int),
            SupportLine::NoDescription => LineModel::NoDescription,
            SupportLine::AccessMask(mask) => LineModel::AccessMask(mask as int),
            SupportLine::DescriptionSize(size) => LineModel::DescriptionSize(size as int),
            SupportLine::MemberLists(count) => LineModel::MemberLists(count as int),
            SupportLine::List { list, header } => LineModel::List { list, header },
            SupportLine::TruncatedHeader { list } => LineModel::TruncatedHeader { list },
            SupportLine::SteppedRange { member, minimum, maximum, step } => {
                LineModel::SteppedRange {
                    member,
                    minimum: minimum as int,
                    maximum: maximum as int,
                    step: step as int,
                }
            },
            SupportLine::TruncatedSteppedRange { member } => {
                LineModel::TruncatedSteppedRange { member }
            },
            SupportLine::Words(words) => LineModel::Words(words@.map_values(|word: i32| word as int)),
            SupportLine::TruncatedRange { member } => LineModel::TruncatedRange { member },
            SupportLine::SteppingLayout { minimum, maximum, step, reserved } => {
                LineModel::SteppingLayout {
                    minimum: minimum as int,
                    maximum: maximum as int,
                    step: step as int,
                    reserved: reserved as int,
                }
            },
            SupportLine::Range { member, minimum, maximum } => LineModel::Range {
                member,
                minimum: minimum as int,
                maximum: maximum as int,
            },
            SupportLine::UnexpectedSize { member, size } => LineModel::UnexpectedSize {
                member,
                size,
            },
            SupportLine::Value { member, value } => LineModel::Value {
                member,
                value: value as int,
            },
            SupportLine::TruncatedValue { member } => LineModel::TruncatedValue { member },
            SupportLine::UnknownMembers(flags) => LineModel::UnknownMembers(flags),
        }
    }
}

/// What a reader comes to next.
#[derive(Copy, Clone, Debug, Eq, PartialEq, Structural)]
pub enum SupportStage {
    Size,
    Missing,
    Access,
    DescriptionSize,
    ListCount,
    List(u32),
    Member { list: u32, header: MembersHeader, member: u32 },
    /// The words of this range have been read; what they mean has not.
    RangeMeaning { list: u32, header: MembersHeader, member: u32 },
    Unknown { list: u32, header: MembersHeader },
    Done,
}

/// Reads a driver's answer line by line.
#[derive(Debug)]
pub struct SupportReader {
    pub bytes: Vec<u8>,
    pub returned: u32,
    pub lists: u32,
    pub offset: u128,
    pub stage: SupportStage,
}

/// A reader's state.
#[verifier::ext_equal]
pub struct ReaderModel {
    pub bytes: Seq<u8>,
    pub returned: u32,
    pub lists: u32,
    pub offset: int,
    pub stage: SupportStage,
}

impl ReaderModel {
    /// Positions fit, and lists and members that are being read exist.
    pub open spec fn wf(self) -> bool {
        &&& self.bytes.len() <= usize::MAX
        &&& 0 <= self.offset <= usize::MAX + 0xFFFF_FFFF * 0xFFFF_FFFF
        &&& match self.stage {
            SupportStage::Size | SupportStage::Missing | SupportStage::Done => true,
            SupportStage::Access | SupportStage::DescriptionSize | SupportStage::ListCount => {
                &&& self.bytes.len() >= DESCRIPTION_SIZE
                &&& self.offset == DESCRIPTION_SIZE
                &&& self.lists == word_at(self.bytes, LIST_COUNT_OFFSET as int)
            },
            SupportStage::List(list) => list < self.lists,
            SupportStage::Member { list, header, member } => {
                &&& list < self.lists
                &&& member < header.members_count
            },
            SupportStage::RangeMeaning { list, header, member } => {
                &&& list < self.lists
                &&& member < header.members_count
                &&& self.offset + header.members_size <= self.bytes.len()
            },
            SupportStage::Unknown { list, .. } => {
                &&& list < self.lists
                &&& self.offset <= self.bytes.len()
            },
        }
        &&& self.stage is Size && self.bytes.len() >= DESCRIPTION_SIZE ==> {
            &&& self.offset == DESCRIPTION_SIZE
            &&& self.lists == word_at(self.bytes, LIST_COUNT_OFFSET as int)
        }
    }

    /// What comes at list `list`, where there may be none.
    pub open spec fn at_list(self, list: int) -> SupportStage {
        if list < self.lists {
            SupportStage::List(list as u32)
        } else {
            SupportStage::Done
        }
    }

    /// What comes behind member `member` of list `list`.
    pub open spec fn behind(self, list: u32, header: MembersHeader, member: u32) -> SupportStage {
        if member + 1 < header.members_count {
            SupportStage::Member { list, header, member: (member + 1) as u32 }
        } else {
            self.at_list(list + 1)
        }
    }

    /// What comes behind the header of list `list`.
    pub open spec fn below(self, list: u32, header: MembersHeader) -> SupportStage {
        if header.members_flags != MEMBER_RANGES && header.members_flags != MEMBER_STEPPED_RANGES
            && header.members_flags != MEMBER_VALUES {
            SupportStage::Unknown { list, header }
        } else if header.members_count > 0 {
            SupportStage::Member { list, header, member: 0 }
        } else {
            self.at_list(list + 1)
        }
    }

    /// There are `size` bytes left.
    pub open spec fn holds(self, size: int) -> bool {
        self.offset + size <= self.bytes.len()
    }

    /// Header of a list that starts here.
    pub open spec fn header(self) -> MembersHeader {
        MembersHeader {
            members_flags: word_at(self.bytes, self.offset) as u32,
            members_size: word_at(self.bytes, self.offset + 4) as u32,
            members_count: word_at(self.bytes, self.offset + 8) as u32,
            flags: word_at(self.bytes, self.offset + 12) as u32,
        }
    }

    pub open spec fn moved(self, size: int, stage: SupportStage) -> ReaderModel {
        ReaderModel { offset: self.offset + size, stage, ..self }
    }

    /// Nothing can be read any more.
    pub open spec fn ended(self) -> ReaderModel {
        ReaderModel { stage: SupportStage::Done, ..self }
    }

    /// The whole words among the next `size` bytes.
    pub open spec fn words(self, size: int) -> Seq<int> {
        Seq::new((size / 4) as nat, |i: int| signed_at(self.bytes, self.offset + 4 * i))
    }

    /// The next line, and the state behind it.
    pub open spec fn next(self) -> (LineModel, ReaderModel) {
        let at = self.offset;
        match self.stage {
            SupportStage::Size => (
                LineModel::BytesReturned(self.returned as int),
                self.moved(
                    0,
                    if self.bytes.len() < DESCRIPTION_SIZE {
                        SupportStage::Missing
                    } else {
                        SupportStage::Access
                    },
                ),
            ),
            SupportStage::Missing | SupportStage::Done => (LineModel::NoDescription, self.ended()),
            SupportStage::Access => (
                LineModel::AccessMask(word_at(self.bytes, 0)),
                self.moved(0, SupportStage::DescriptionSize),
            ),
            SupportStage::DescriptionSize => (
                LineModel::DescriptionSize(word_at(self.bytes, 4)),
                self.moved(0, SupportStage::ListCount),
            ),
            SupportStage::ListCount => (
                LineModel::MemberLists(self.lists as int),
                self.moved(0, self.at_list(0)),
            ),
            SupportStage::List(list) => if self.holds(HEADER_SIZE as int) {
                (
                    LineModel::List { list, header: self.header() },
                    self.moved(HEADER_SIZE as int, self.below(list, self.header())),
                )
            } else {
                (LineModel::TruncatedHeader { list }, self.ended())
            },
            SupportStage::Member { list, header, member } => {
                let size = header.members_size as int;
                if header.members_flags == MEMBER_STEPPED_RANGES {
                    if self.holds(STEPPING_SIZE as int) {
                        (
                            LineModel::SteppedRange {
                                member,
                                minimum: signed_at(self.bytes, at + 8),
                                maximum: signed_at(self.bytes, at + 12),
                                step: word_at(self.bytes, at),
                            },
                            self.moved(size, self.behind(list, header, member)),
                        )
                    } else {
                        (LineModel::TruncatedSteppedRange { member }, self.ended())
                    }
                } else if header.members_flags == MEMBER_RANGES {
                    if self.holds(size) {
                        (
                            LineModel::Words(self.words(size)),
                            self.moved(0, SupportStage::RangeMeaning { list, header, member }),
                        )
                    } else {
                        (LineModel::TruncatedRange { member }, self.ended())
                    }
                } else {
                    if self.holds(4) {
                        (
                            LineModel::Value { member, value: signed_at(self.bytes, at) },
                            self.moved(size, self.behind(list, header, member)),
                        )
                    } else {
                        (LineModel::TruncatedValue { member }, self.ended())
                    }
                }
            },
            SupportStage::RangeMeaning { list, header, member } => {
                let size = header.members_size;
                let line = if size == STEPPING_SIZE {
                    LineModel::SteppingLayout {
                        minimum: signed_at(self.bytes, at + 8),
                        maximum: signed_at(self.bytes, at + 12),
                        step: word_at(self.bytes, at),
                        reserved: word_at(self.bytes, at + 4),
                    }
                } else if size >= BOUNDS_SIZE {
                    LineModel::Range {
                        member,
                        minimum: signed_at(self.bytes, at),
                        maximum: signed_at(self.bytes, at + 4),
                    }
                } else {
                    LineModel::UnexpectedSize { member, size }
                };
                (line, self.moved(size as int, self.behind(list, header, member)))
            },
            SupportStage::Unknown { list, header } => (
                LineModel::UnknownMembers(header.members_flags),
                self.moved(header.members_size * header.members_count, self.at_list(list + 1)),
            ),
        }
    }
}

impl SupportReader {
    pub open spec fn view(&self) -> ReaderModel {
        ReaderModel {
            bytes: self.bytes@,
            returned: self.returned,
            lists: self.lists,
            offset: self.offset as int,
            stage: self.stage,
        }
    }

    /// Reads a buffer that a driver filled, as far as the driver says it did.
    pub fn new(buffer: &Vec<u8>, bytes_returned: u32) -> (r: SupportReader)
        ensures
            r@.wf(),
            r@.stage is Size,
            r@.returned == bytes_returned,
            r@.bytes == (if bytes_returned < buffer@.len() {
                buffer@.take(bytes_returned as int)
            } else {
                buffer@
            }),
    {
        let mut bytes: Vec<u8> = Vec::new();
        let mut i: usize = 0;
        while i < buffer.len() && (i as u64) < bytes_returned as u64
            invariant
                i <= buffer@.len(),
                i <= bytes_returned,
                bytes@ == buffer@.take(i as int),
            decreases buffer@.len() - i,
        {
            bytes.push(buffer[i]);
            i += 1;
            assert(bytes@ =~= buffer@.take(i as int));
        }
        assert(i == buffer@.len() ==> bytes@ =~= buffer@);
        let lists: u32 = if bytes.len() >= DESCRIPTION_SIZE {
            read_word(&bytes, LIST_COUNT_OFFSET)
        } else {
            0
        };
        assert(bytes.len() <= usize::MAX);
        SupportReader {
            bytes,
            returned: bytes_returned,
            lists,
            offset: DESCRIPTION_SIZE as u128,
            stage: SupportStage::Size,
        }
    }

    fn at_list(&self, list: u64) -> (r: SupportStage)
        ensures
            r == self@.at_list(list as int),
    {
        if list < self.lists as u64 {
            SupportStage::List(list as u32)
        } else {
            SupportStage::Done
        }
    }

    fn behind(&self, list: u32, header: MembersHeader, member: u32) -> (r: SupportStage)
        requires
            member < header.members_count,
        ensures
            r == self@.behind(list, header, member),
    {
        if member + 1 < header.members_count {
            SupportStage::Member { list, header, member: member + 1 }
        } else {
            self.at_list(list as u64 + 1)
        }
    }

    fn below(&self, list: u32, header: MembersHeader) -> (r: SupportStage)
        ensures
            r == self@.below(list, header),
    {
        if header.members_flags != MEMBER_RANGES && header.members_flags != MEMBER_STEPPED_RANGES
            && header.members_flags != MEMBER_VALUES {
            SupportStage::Unknown { list, header }
        } else if header.members_count > 0 {
            SupportStage::Member { list, header, member: 0 }
        } else {
            self.at_list(list as u64 + 1)
        }
    }

    fn holds(&self, size: u32) -> (r: bool)
        requires
            self@.wf(),
        ensures
            r == self@.holds(size as int),
    {
        self.offset + size as u128 <= self.bytes.len() as u128
    }

    fn read_words(&self, size: u32) -> (r: Vec<i32>)
        requires
            self@.wf(),
            self@.holds(size as int),
        ensures
            r@.map_values(|word: i32| word as int) == self@.words(size as int),
    {
        let start: usize = self.offset as usize;
        let count: u32 = size / 4;
        let mut words: Vec<i32> = Vec::new();
        let mut i: u32 = 0;
        while i < count
            invariant
                i <= count == size / 4,
                self@.wf(),
                self@.holds(size as int),
                start == self.offset,
                words@.len() == i,
                forall|k: int|
                    0 <= k < i ==> #[trigger] words@[k] == signed_at(self.bytes@, start + 4 * k),
            decreases count - i,
        {
            words.push(read_signed(&self.bytes, start + 4 * i as usize));
            i += 1;
        }
        assert(words@.map_values(|word: i32| word as int) =~= self@.words(size as int));
        words
    }

    /// The next line; none once the report is complete or cannot go on.
    pub fn next_line(&mut self) -> (r: Option<SupportLine>)
        requires
            old(self)@.wf(),
        ensures
            final(self)@.wf(),
            match r {
                Some(line) => (line@, final(self)@) == old(self)@.next(),
                None => final(self)@ == old(self)@,
            },
            r is None <==> old(self)@.stage is Done,
    {
        proof {
            lemma_step_keeps_wf(self@);
        }
        match self.stage {
            SupportStage::Done => None,
            SupportStage::Size => {
                self.stage = if self.bytes.len() < DESCRIPTION_SIZE {
                    SupportStage::Missing
                } else {
                    SupportStage::Access
                };
                Some(SupportLine::BytesReturned(self.returned))
            },
            SupportStage::Missing => {
                self.stage = SupportStage::Done;
                Some(SupportLine::NoDescription)
            },
            SupportStage::Access => {
                self.stage = SupportStage::DescriptionSize;
                Some(SupportLine::AccessMask(read_word(&self.bytes, 0)))
            },
            SupportStage::DescriptionSize => {
                self.stage = SupportStage::ListCount;
                Some(SupportLine::DescriptionSize(read_word(&self.bytes, 4)))
            },
            SupportStage::ListCount => {
                self.stage = self.at_list(0);
                Some(SupportLine::MemberLists(self.lists))
            },
            SupportStage::List(list) => {
                if !self.holds(HEADER_SIZE as u32) {
                    self.stage = SupportStage::Done;
                    return Some(SupportLine::TruncatedHeader { list });
                }
                let at: usize = self.offset as usize;
                let header = MembersHeader {
                    members_flags: read_word(&self.bytes, at),
                    members_size: read_word(&self.bytes, at + 4),
                    members_count: read_word(&self.bytes, at + 8),
                    flags: read_word(&self.bytes, at + 12),
                };
                self.offset = self.offset + HEADER_SIZE as u128;
                self.stage = self.below(list, header);
                Some(SupportLine::List { list, header })
            },
            SupportStage::Member { list, header, member } => {
                let size: u32 = header.members_size;
                if header.members_flags == MEMBER_STEPPED_RANGES {
                    if !self.holds(STEPPING_SIZE as u32) {
                        self.stage = SupportStage::Done;
                        return Some(SupportLine::TruncatedSteppedRange { member });
                    }
                    let at: usize = self.offset as usize;
                    self.offset = self.offset + size as u128;
                    self.stage = self.behind(list, header, member);
                    Some(
                        SupportLine::SteppedRange {
                            member,
                            minimum: read_signed(&self.bytes, at + 8),
                            maximum: read_signed(&self.bytes, at + 12),
                            step: read_word(&self.bytes, at),
                        },
                    )
                } else if header.members_flags == MEMBER_RANGES {
                    if !self.holds(size) {
                        self.stage = SupportStage::Done;
                        return Some(SupportLine::TruncatedRange { member });
                    }
                    let words = self.read_words(size);
                    self.stage = SupportStage::RangeMeaning { list, header, member };
                    Some(SupportLine::Words(words))
                } else {
                    if !self.holds(4) {
                        self.stage = SupportStage::Done;
                        return Some(SupportLine::TruncatedValue { member });
                    }
                    let at: usize = self.offset as usize;
                    self.offset = self.offset + size as u128;
                    self.stage = self.behind(list, header, member);
                    Some(SupportLine::Value { member, value: read_signed(&self.bytes, at) })
                }
            },
            SupportStage::RangeMeaning { list, header, member } => {
                let size: u32 = header.members_size;
                let at: usize = self.offset as usize;
                let line = if size == STEPPING_SIZE as u32 {
                    SupportLine::SteppingLayout {
                        minimum: read_signed(&self.bytes, at + 8),
                        maximum: read_signed(&self.bytes, at + 12),
                        step: read_word(&self.bytes, at),
                        reserved: read_word(&self.bytes, at + 4),
                    }
                } else if size >= BOUNDS_SIZE as u32 {
                    SupportLine::Range {
                        member,
                        minimum: read_signed(&self.bytes, at),
                        maximum: read_signed(&self.bytes, at + 4),
                    }
                } else {
                    SupportLine::UnexpectedSize { member, size }
                };
                self.offset = self.offset + size as u128;
                self.stage = self.behind(list, header, member);
                Some(line)
            },
            SupportStage::Unknown { list, header } => {
                proof {
                    lemma_area(header.members_size, header.members_count);
                }
                self.offset = self.offset + header.members_size as u128 * header.members_count as u128;
                self.stage = self.at_list(list as u64 + 1);
                Some(SupportLine::UnknownMembers(header.members_flags))
            },
        }
    }
}

proof fn lemma_area(size: u32, count: u32)
    by (nonlinear_arith)
    ensures
        0 <= size * count <= 0xFFFF_FFFF * 0xFFFF_FFFF,
{
}

proof fn lemma_step_keeps_wf(model: ReaderModel)
    requires
        model.wf(),
    ensures
        model.next().1.wf(),
{
    if let SupportStage::Unknown { header, .. } = model.stage {
        lemma_area(header.members_size, header.members_count);
    }
}

/// What is left to read.
pub open spec fn left_to_read(model: ReaderModel) -> (int, int, int) {
    match model.stage {
        SupportStage::Size => (model.lists + 5, 0, 0),
        SupportStage::Access => (model.lists + 4, 0, 0),
        SupportStage::DescriptionSize => (model.lists + 3, 0, 0),
        SupportStage::ListCount => (model.lists + 2, 0, 0),
        SupportStage::Missing => (1, 0, 0),
        SupportStage::List(list) => (model.lists - list, u32::MAX + 1, 0),
        SupportStage::Member { list, header, member } => (
            model.lists - list,
            header.members_count - member,
            1,
        ),
        SupportStage::RangeMeaning { list, header, member } => (
            model.lists - list,
            header.members_count - member,
            0,
        ),
        SupportStage::Unknown { list, .. } => (model.lists - list, 0, 0),
        SupportStage::Done => (0, 0, 0),
    }
}

/// Every report ends: with each line there is less left to read.
pub proof fn report_ends(model: ReaderModel)
    requires
        model.wf(),
        !(model.stage is Done),
    ensures
        ({
            let before = left_to_read(model);
            let after = left_to_read(model.next().1);
            &&& 0 <= after.0 && 0 <= after.1 && 0 <= after.2
            &&& after.0 < before.0 || (after.0 == before.0 && (after.1 < before.1 || (after.1
                == before.1 && after.2 < before.2)))
        }),
{
}

/// A report without a description says how many bytes came and that they hold
/// none, and ends.
pub proof fn short_answers_hold_no_description(model: ReaderModel)
    requires
        model.wf(),
        model.stage is Size,
        model.bytes.len() < DESCRIPTION_SIZE,
    ensures
        model.next().0 == LineModel::BytesReturned(model.returned as int),
        model.next().1.next().0 == LineModel::NoDescription,
        model.next().1.next().1.stage is Done,
{
}

/// A word is spelled by four bytes, the lowest first; read with its sign, it is the
/// same number modulo two to the power of 32, and negative exactly when the highest
/// bit is set.
pub proof fn words_begin_with_the_lowest_byte(bytes: Seq<u8>, at: int, number: int)
    requires
        0 <= number < 0x1_0000_0000,
        bytes[at] == number % 0x100,
        bytes[at + 1] == number / 0x100 % 0x100,
        bytes[at + 2] == number / 0x1_0000 % 0x100,
        bytes[at + 3] == number / 0x100_0000,
    ensures
        word_at(bytes, at) == number,
        number < 0x8000_0000 ==> signed_at(bytes, at) == number,
        number >= 0x8000_0000 ==> signed_at(bytes, at) == number - 0x1_0000_0000,
        signed_at(bytes, at) < 0 <==> bytes[at + 3] >= 0x80,
{
}

/// The description begins with the access mask, then its size; the number of lists
/// stands at byte 32, and the first list follows at byte 40.
pub proof fn description_comes_first(model: ReaderModel)
    requires
        model.wf(),
        model.stage is Size,
        model.bytes.len() >= 40,
    ensures
        ({
            let (size, second) = model.next();
            let (access, third) = second.next();
            let (length, fourth) = third.next();
            let (lists, fifth) = fourth.next();
            &&& size == LineModel::BytesReturned(model.returned as int)
            &&& access == LineModel::AccessMask(word_at(model.bytes, 0))
            &&& length == LineModel::DescriptionSize(word_at(model.bytes, 4))
            &&& lists == LineModel::MemberLists(word_at(model.bytes, 32))
            &&& fifth.offset == 40
            &&& fifth.bytes == model.bytes
            &&& fifth.stage == if word_at(model.bytes, 32) > 0 {
                SupportStage::List(0)
            } else {
                SupportStage::Done
            }
        }),
{
}

/// The stage behind a list.
pub open spec fn after_list(model: ReaderModel, list: int) -> SupportStage {
    if list + 1 < model.lists {
        SupportStage::List((list + 1) as u32)
    } else {
        SupportStage::Done
    }
}

/// A list begins with sixteen bytes: the kind of its members, their size, their number
/// and flags. Members of a kind that is not known are skipped whole; a list without
/// members is followed by the next one.
pub proof fn lists_begin_with_a_header(model: ReaderModel, list: u32)
    requires
        model.wf(),
        model.stage == SupportStage::List(list),
    ensures
        ({
            let (line, next) = model.next();
            let at = model.offset;
            if at + 16 > model.bytes.len() {
                line == (LineModel::TruncatedHeader { list }) && next.stage is Done
            } else {
                &&& line matches LineModel::List { list: shown, header }
                &&& shown == list
                &&& header.members_flags == word_at(model.bytes, at)
                &&& header.members_size == word_at(model.bytes, at + 4)
                &&& header.members_count == word_at(model.bytes, at + 8)
                &&& header.flags == word_at(model.bytes, at + 12)
                &&& next.offset == at + 16
                &&& 1 <= header.members_flags <= 3 ==> next.stage == if header.members_count > 0 {
                    SupportStage::Member { list, header, member: 0 }
                } else {
                    after_list(model, list as int)
                }
                &&& !(1 <= header.members_flags <= 3) ==> {
                    &&& next.stage == (SupportStage::Unknown { list, header })
                    &&& next.next().0 == LineModel::UnknownMembers(header.members_flags)
                    &&& next.next().1.offset == next.offset + header.members_size
                        * header.members_count
                    &&& next.next().1.stage == after_list(model, list as int)
                }
            }
        }),
{
}

/// Members come one after the other, each as far from the last as the header says; the
/// last one is followed by the next list. Of a stepped range the step comes first, then
/// after a gap of a word the ends; of a range the ends; of a value the value. A member
/// that is cut off ends the report.
pub proof fn members_come_in_order(
    model: ReaderModel,
    list: u32,
    header: MembersHeader,
    member: u32,
)
    requires
        model.wf(),
        model.stage == (SupportStage::Member { list, header, member }),
        1 <= header.members_flags <= 3,
    ensures
        ({
            let (line, next) = model.next();
            let at = model.offset;
            let bytes = model.bytes;
            let left = bytes.len() - at;
            let size = header.members_size as int;
            let follows = if member + 1 < header.members_count {
                SupportStage::Member { list, header, member: (member + 1) as u32 }
            } else {
                after_list(model, list as int)
            };
            &&& next.bytes == bytes && next.lists == model.lists
            &&& header.members_flags == 1 ==> if size > left {
                line == (LineModel::TruncatedRange { member }) && next.stage is Done
            } else {
                let (meaning, later) = next.next();
                &&& line matches LineModel::Words(words)
                &&& words.len() == size / 4
                &&& forall|i: int|
                    0 <= i < size / 4 ==> #[trigger] words[i] == signed_at(bytes, at + 4 * i)
                &&& next.offset == at
                &&& later.offset == at + size && later.stage == follows
                &&& meaning == if size == 16 {
                    LineModel::SteppingLayout {
                        minimum: signed_at(bytes, at + 8),
                        maximum: signed_at(bytes, at + 12),
                        step: word_at(bytes, at),
                        reserved: word_at(bytes, at + 4),
                    }
                } else if size >= 8 {
                    LineModel::Range {
                        member,
                        minimum: signed_at(bytes, at),
                        maximum: signed_at(bytes, at + 4),
                    }
                } else {
                    LineModel::UnexpectedSize { member, size: header.members_size }
                }
            }
            &&& header.members_flags == 2 ==> if left < 16 {
                line == (LineModel::TruncatedSteppedRange { member }) && next.stage is Done
            } else {
                &&& line == (LineModel::SteppedRange {
                    member,
                    minimum: signed_at(bytes, at + 8),
                    maximum: signed_at(bytes, at + 12),
                    step: word_at(bytes, at),
                })
                &&& next.offset == at + size && next.stage == follows
            }
            &&& header.members_flags == 3 ==> if left < 4 {
                line == (LineModel::TruncatedValue { member }) && next.stage is Done
            } else {
                &&& line == (LineModel::Value { member, value: signed_at(bytes, at) })
                &&& next.offset == at + size && next.stage == follows
            }
        }),
{
}

} // verus!
