//! The user operation mask: which remote-control operations a disc forbids.
//!
//! The mask has 64 bits; position 0 is the most significant. A set bit forbids
//! its operation. Positions 6, 9, 22, 32 and those from 34 on are reserved.
use vstd::prelude::*;
use vstd::string::*;

verus! {

/// An operation that a mask can forbid, in the order of the positions.
#[derive(Debug, Clone, Copy, PartialEq, Eq, Hash, PartialOrd, Ord, Structural)]
pub enum UserOperation {
    MenuCall,
    TitleSearch,
    ChapterSearch,
    TimeSearch,
    SkipToNextPoint,
    SkipToPrevPoint,
    Stop,
    PauseOn,
    StillOff,
    ForwardPlay,
    BackwardPlay,
    Resume,
    MoveUpSelectedButton,
    MoveDownSelectedButton,
    MoveLeftSelectedButton,
    MoveRightSelectedButton,
    SelectButton,
    ActivateButton,
    SelectAndActivateButton,
    PrimaryAudioStreamNumberChange,
    AngleNumberChange,
    PopupOn,
    PopupOff,
    PrimaryPgEnableDisable,
    PrimaryPgStreamNumberChange,
    SecondaryVideoEnableDisable,
    SecondaryVideoStreamNumberChange,
    SecondaryAudioEnableDisable,
    SecondaryAudioStreamNumberChange,
    SecondaryPgStreamNumberChange,
}

impl UserOperation {
    /// The position of the operation in the mask.
    pub open spec fn bit(self) -> u8 {
        match self {
            UserOperation::MenuCall => 0,
            UserOperation::TitleSearch => 1,
            UserOperation::ChapterSearch => 2,
            UserOperation::TimeSearch => 3,
            UserOperation::SkipToNextPoint => 4,
            UserOperation::SkipToPrevPoint => 5,
            UserOperation::Stop => 7,
            UserOperation::PauseOn => 8,
            UserOperation::StillOff => 10,
            UserOperation::ForwardPlay => 11,
            UserOperation::BackwardPlay => 12,
            UserOperation::Resume => 13,
            UserOperation::MoveUpSelectedButton => 14,
            UserOperation::MoveDownSelectedButton => 15,
            UserOperation::MoveLeftSelectedButton => 16,
            UserOperation::MoveRightSelectedButton => 17,
            UserOperation::SelectButton => 18,
            UserOperation::ActivateButton => 19,
            UserOperation::SelectAndActivateButton => 20,
            UserOperation::PrimaryAudioStreamNumberChange => 21,
            UserOperation::AngleNumberChange => 23,
            UserOperation::PopupOn => 24,
            UserOperation::PopupOff => 25,
            UserOperation::PrimaryPgEnableDisable => 26,
            UserOperation::PrimaryPgStreamNumberChange => 27,
            UserOperation::SecondaryVideoEnableDisable => 28,
            UserOperation::SecondaryVideoStreamNumberChange => 29,
            UserOperation::SecondaryAudioEnableDisable => 30,
            UserOperation::SecondaryAudioStreamNumberChange => 31,
            UserOperation::SecondaryPgStreamNumberChange => 33,
        }
    }

    /// The mask that forbids just this operation.
    pub open spec fn mask(self) -> u64 {
        bit_mask(self.bit())
    }

    /// The name of the operation's field.
    pub open spec fn label(self) -> Seq<char> {
        match self {
            UserOperation::MenuCall => "menu_call"@,
            UserOperation::TitleSearch => "title_search"@,
            UserOperation::ChapterSearch => "chapter_search"@,
            UserOperation::TimeSearch => "time_search"@,
            UserOperation::SkipToNextPoint => "skip_to_next_point"@,
            UserOperation::SkipToPrevPoint => "skip_to_prev_point"@,
            UserOperation::Stop => "stop"@,
            UserOperation::PauseOn => "pause_on"@,
            UserOperation::StillOff => "still_off"@,
            UserOperation::ForwardPlay => "forward_play"@,
            UserOperation::BackwardPlay => "backward_play"@,
            UserOperation::Resume => "resume"@,
            UserOperation::MoveUpSelectedButton => "move_up_selected_button"@,
            UserOperation::MoveDownSelectedButton => "move_down_selected_button"@,
            UserOperation::MoveLeftSelectedButton => "move_left_selected_button"@,
            UserOperation::MoveRightSelectedButton => "move_right_selected_button"@,
            UserOperation::SelectButton => "select_button"@,
            UserOperation::ActivateButton => "activate_button"@,
            UserOperation::SelectAndActivateButton => "select_and_activate_button"@,
            UserOperation::PrimaryAudioStreamNumberChange => "primary_audio_stream_number_change"@,
            UserOperation::AngleNumberChange => "angle_number_change"@,
            UserOperation::PopupOn => "popup_on"@,
            UserOperation::PopupOff => "popup_off"@,
            UserOperation::PrimaryPgEnableDisable => "primary_PG_enable_disable"@,
            UserOperation::PrimaryPgStreamNumberChange => "primary_PG_stream_number_change"@,
            UserOperation::SecondaryVideoEnableDisable => "secondary_video_enable_disable"@,
            UserOperation::SecondaryVideoStreamNumberChange => "secondary_video_stream_number_change"@,
            UserOperation::SecondaryAudioEnableDisable => "secondary_audio_enable_disable"@,
            UserOperation::SecondaryAudioStreamNumberChange => "secondary_audio_stream_number_change"@,
            UserOperation::SecondaryPgStreamNumberChange => "secondary_PG_stream_number_change"@,
        }
    }

    /// All operations, in the order of their positions.
    pub fn all() -> (r: [UserOperation; 30])
        ensures
            r@ == all_operations(),
    {
        let r = [
            UserOperation::MenuCall,
            UserOperation::TitleSearch,
            UserOperation::ChapterSearch,
            UserOperation::TimeSearch,
            UserOperation::SkipToNextPoint,
            UserOperation::SkipToPrevPoint,
            UserOperation::Stop,
            UserOperation::PauseOn,
            UserOperation::StillOff,
            UserOperation::ForwardPlay,
            UserOperation::BackwardPlay,
            UserOperation::Resume,
            UserOperation::MoveUpSelectedButton,
            UserOperation::MoveDownSelectedButton,
            UserOperation::MoveLeftSelectedButton,
            UserOperation::MoveRightSelectedButton,
            UserOperation::SelectButton,
            UserOperation::ActivateButton,
            UserOperation::SelectAndActivateButton,
            UserOperation::PrimaryAudioStreamNumberChange,
            UserOperation::AngleNumberChange,
            UserOperation::PopupOn,
            UserOperation::PopupOff,
            UserOperation::PrimaryPgEnableDisable,
            UserOperation::PrimaryPgStreamNumberChange,
            UserOperation::SecondaryVideoEnableDisable,
            UserOperation::SecondaryVideoStreamNumberChange,
            UserOperation::SecondaryAudioEnableDisable,
            UserOperation::SecondaryAudioStreamNumberChange,
            UserOperation::SecondaryPgStreamNumberChange,
        ];
        assert(r@ =~= all_operations());
        r
    }

    /// The position of this operation; 0 is the most significant bit.
    pub fn wire_bit(self) -> (r: u8)
        ensures
            r == self.bit(),
    {
        match self {
            UserOperation::MenuCall => 0,
            UserOperation::TitleSearch => 1,
            UserOperation::ChapterSearch => 2,
            UserOperation::TimeSearch => 3,
            UserOperation::SkipToNextPoint => 4,
            UserOperation::SkipToPrevPoint => 5,
            UserOperation::Stop => 7,
            UserOperation::PauseOn => 8,
            UserOperation::StillOff => 10,
            UserOperation::ForwardPlay => 11,
            UserOperation::BackwardPlay => 12,
            UserOperation::Resume => 13,
            UserOperation::MoveUpSelectedButton => 14,
            UserOperation::MoveDownSelectedButton => 15,
            UserOperation::MoveLeftSelectedButton => 16,
            UserOperation::MoveRightSelectedButton => 17,
            UserOperation::SelectButton => 18,
            UserOperation::ActivateButton => 19,
            UserOperation::SelectAndActivateButton => 20,
            UserOperation::PrimaryAudioStreamNumberChange => 21,
            UserOperation::AngleNumberChange => 23,
            UserOperation::PopupOn => 24,
            UserOperation::PopupOff => 25,
            UserOperation::PrimaryPgEnableDisable => 26,
            UserOperation::PrimaryPgStreamNumberChange => 27,
            UserOperation::SecondaryVideoEnableDisable => 28,
            UserOperation::SecondaryVideoStreamNumberChange => 29,
            UserOperation::SecondaryAudioEnableDisable => 30,
            UserOperation::SecondaryAudioStreamNumberChange => 31,
            UserOperation::SecondaryPgStreamNumberChange => 33,
        }
    }

    /// The mask that forbids just this operation.
    pub fn raw_mask(self) -> (r: u64)
        ensures
            r == self.mask(),
    {
        1u64 << (63 - self.wire_bit())
    }

    /// The operation at a position, or `None` for a reserved position.
    pub fn from_wire_bit(bit: u8) -> (r: Option<Self>)
        ensures
            match r {
                Some(op) => op.bit() == bit,
                None => !assigned(bit),
            },
    {
        match bit {
            0 => Some(UserOperation::MenuCall),
            1 => Some(UserOperation::TitleSearch),
            2 => Some(UserOperation::ChapterSearch),
            3 => Some(UserOperation::TimeSearch),
            4 => Some(UserOperation::SkipToNextPoint),
            5 => Some(UserOperation::SkipToPrevPoint),
            7 => Some(UserOperation::Stop),
            8 => Some(UserOperation::PauseOn),
            10 => Some(UserOperation::StillOff),
            11 => Some(UserOperation::ForwardPlay),
            12 => Some(UserOperation::BackwardPlay),
            13 => Some(UserOperation::Resume),
            14 => Some(UserOperation::MoveUpSelectedButton),
            15 => Some(UserOperation::MoveDownSelectedButton),
            16 => Some(UserOperation::MoveLeftSelectedButton),
            17 => Some(UserOperation::MoveRightSelectedButton),
            18 => Some(UserOperation::SelectButton),
            19 => Some(UserOperation::ActivateButton),
            20 => Some(UserOperation::SelectAndActivateButton),
            21 => Some(UserOperation::PrimaryAudioStreamNumberChange),
            23 => Some(UserOperation::AngleNumberChange),
            24 => Some(UserOperation::PopupOn),
            25 => Some(UserOperation::PopupOff),
            26 => Some(UserOperation::PrimaryPgEnableDisable),
            27 => Some(UserOperation::PrimaryPgStreamNumberChange),
            28 => Some(UserOperation::SecondaryVideoEnableDisable),
            29 => Some(UserOperation::SecondaryVideoStreamNumberChange),
            30 => Some(UserOperation::SecondaryAudioEnableDisable),
            31 => Some(UserOperation::SecondaryAudioStreamNumberChange),
            33 => Some(UserOperation::SecondaryPgStreamNumberChange),
            _ => None,
        }
    }

    /// The name of the operation's field.
    pub fn name(self) -> (r: &'static str)
        ensures
            r@ == self.label(),
    {
        match self {
            UserOperation::MenuCall => "menu_call",
            UserOperation::TitleSearch => "title_search",
            UserOperation::ChapterSearch => "chapter_search",
            UserOperation::TimeSearch => "time_search",
            UserOperation::SkipToNextPoint => "skip_to_next_point",
            UserOperation::SkipToPrevPoint => "skip_to_prev_point",
            UserOperation::Stop => "stop",
            UserOperation::PauseOn => "pause_on",
            UserOperation::StillOff => "still_off",
            UserOperation::ForwardPlay => "forward_play",
            UserOperation::BackwardPlay => "backward_play",
            UserOperation::Resume => "resume",
            UserOperation::MoveUpSelectedButton => "move_up_selected_button",
            UserOperation::MoveDownSelectedButton => "move_down_selected_button",
            UserOperation::MoveLeftSelectedButton => "move_left_selected_button",
            UserOperation::MoveRightSelectedButton => "move_right_selected_button",
            UserOperation::SelectButton => "select_button",
            UserOperation::ActivateButton => "activate_button",
            UserOperation::SelectAndActivateButton => "select_and_activate_button",
            UserOperation::PrimaryAudioStreamNumberChange => "primary_audio_stream_number_change",
            UserOperation::AngleNumberChange => "angle_number_change",
            UserOperation::PopupOn => "popup_on",
            UserOperation::PopupOff => "popup_off",
            UserOperation::PrimaryPgEnableDisable => "primary_PG_enable_disable",
            UserOperation::PrimaryPgStreamNumberChange => "primary_PG_stream_number_change",
            UserOperation::SecondaryVideoEnableDisable => "secondary_video_enable_disable",
            UserOperation::SecondaryVideoStreamNumberChange => "secondary_video_stream_number_change",
            UserOperation::SecondaryAudioEnableDisable => "secondary_audio_enable_disable",
            UserOperation::SecondaryAudioStreamNumberChange => "secondary_audio_stream_number_change",
            UserOperation::SecondaryPgStreamNumberChange => "secondary_PG_stream_number_change",
        }
    }

    /// Whether the operation moves about in a menu or opens and closes one.
    pub fn is_menu_navigation(self) -> (r: bool)
        ensures
            r == (14 <= self.bit() <= 20 || self.bit() == 24 || self.bit() == 25),
    {
        matches!(
            self,
            UserOperation::MoveUpSelectedButton
            | UserOperation::MoveDownSelectedButton
            | UserOperation::MoveLeftSelectedButton
            | UserOperation::MoveRightSelectedButton
            | UserOperation::SelectButton
            | UserOperation::ActivateButton
            | UserOperation::SelectAndActivateButton
            | UserOperation::PopupOn
            | UserOperation::PopupOff
        )
    }

    /// Whether the operation selects streams.
    pub fn is_stream_selection(self) -> (r: bool)
        ensures
            r == (self.bit() == 21 || self.bit() == 23 || self.bit() >= 26),
    {
        matches!(
            self,
            UserOperation::PrimaryAudioStreamNumberChange
            | UserOperation::AngleNumberChange
            | UserOperation::PrimaryPgEnableDisable
            | UserOperation::PrimaryPgStreamNumberChange
            | UserOperation::SecondaryVideoEnableDisable
            | UserOperation::SecondaryVideoStreamNumberChange
            | UserOperation::SecondaryAudioEnableDisable
            | UserOperation::SecondaryAudioStreamNumberChange
            | UserOperation::SecondaryPgStreamNumberChange
        )
    }
}

/// The mask with only the bit at a position set.
pub open spec fn bit_mask(bit: u8) -> u64 {
    1u64 << ((63 - bit) as u8)
}

/// Whether a position belongs to an operation.
pub open spec fn assigned(bit: u8) -> bool {
    bit <= 33 && bit != 6 && bit != 9 && bit != 22 && bit != 32
}

/// All operations, in the order of their positions.
pub open spec fn all_operations() -> Seq<UserOperation> {
    seq![
        UserOperation::MenuCall,
        UserOperation::TitleSearch,
        UserOperation::ChapterSearch,
        UserOperation::TimeSearch,
        UserOperation::SkipToNextPoint,
        UserOperation::SkipToPrevPoint,
        UserOperation::Stop,
        UserOperation::PauseOn,
        UserOperation::StillOff,
        UserOperation::ForwardPlay,
        UserOperation::BackwardPlay,
        UserOperation::Resume,
        UserOperation::MoveUpSelectedButton,
        UserOperation::MoveDownSelectedButton,
        UserOperation::MoveLeftSelectedButton,
        UserOperation::MoveRightSelectedButton,
        UserOperation::SelectButton,
        UserOperation::ActivateButton,
        UserOperation::SelectAndActivateButton,
        UserOperation::PrimaryAudioStreamNumberChange,
        UserOperation::AngleNumberChange,
        UserOperation::PopupOn,
        UserOperation::PopupOff,
        UserOperation::PrimaryPgEnableDisable,
        UserOperation::PrimaryPgStreamNumberChange,
        UserOperation::SecondaryVideoEnableDisable,
        UserOperation::SecondaryVideoStreamNumberChange,
        UserOperation::SecondaryAudioEnableDisable,
        UserOperation::SecondaryAudioStreamNumberChange,
        UserOperation::SecondaryPgStreamNumberChange,
    ]
}

/// All positions.
pub open spec fn all_bits() -> Seq<u8> {
    Seq::new(64, |i: int| i as u8)
}

/// A mask of 64 bits.
#[derive(Debug, Clone, Copy, PartialEq, Eq, Hash, Structural)]
pub struct UoMask(pub u64);

impl Default for UoMask {
    fn default() -> (r: Self)
        ensures
            r.0 == 0,
    {
        UoMask(0)
    }
}

impl UoMask {
    /// Whether the bit at a position is set.
    pub open spec fn has_bit(self, bit: u8) -> bool {
        self.0 & bit_mask(bit) != 0
    }

    /// Whether the mask forbids an operation.
    pub open spec fn prohibits(self, op: UserOperation) -> bool {
        self.has_bit(op.bit())
    }

    /// The forbidden operations, in the order of their positions.
    pub open spec fn prohibited(self) -> Seq<UserOperation> {
        all_operations().filter(|op: UserOperation| self.prohibits(op))
    }

    /// The reserved positions whose bits are set, in order.
    pub open spec fn reserved(self) -> Seq<u8> {
        all_bits().filter(|bit: u8| !assigned(bit) && self.has_bit(bit))
    }

    /// The mask that forbids nothing.
    pub fn permit_all() -> (r: Self)
        ensures
            r.0 == 0,
    {
        UoMask(0)
    }

    pub fn from_raw(raw: u64) -> (r: Self)
        ensures
            r.0 == raw,
    {
        UoMask(raw)
    }

    pub fn as_raw(self) -> (r: u64)
        ensures
            r == self.0,
    {
        self.0
    }

    /// Whether the disc forbids `op`.
    pub fn is_prohibited(self, op: UserOperation) -> (r: bool)
        ensures
            r == self.prohibits(op),
    {
        self.0 & op.raw_mask() != 0
    }

    /// Whether the disc permits `op`.
    pub fn permits(self, op: UserOperation) -> (r: bool)
        ensures
            r == !self.prohibits(op),
    {
        !self.is_prohibited(op)
    }

    /// The forbidden operations, in the order of their positions.
    pub fn prohibited_ops(self) -> (out: Vec<UserOperation>)
        ensures
            out@ == self.prohibited(),
    {
        let all = UserOperation::all();
        let ghost keep = |op: UserOperation| self.prohibits(op);
        let mut out: Vec<UserOperation> = Vec::new();
        let mut i: usize = 0;
        proof {
            reveal(Seq::filter);
            assert(all_operations().take(0).filter(keep) =~= Seq::empty());
        }
        while i < 30
            invariant
                i <= 30,
                all@ == all_operations(),
                keep == (|op: UserOperation| self.prohibits(op)),
                out@ == all_operations().take(i as int).filter(keep),
            decreases 30 - i,
        {
            let op = all[i];
            proof {
                lemma_filter_next(all_operations(), keep, i as int);
            }
            if self.is_prohibited(op) {
                out.push(op);
            }
            i += 1;
        }
        assert(all_operations().take(30) =~= all_operations());
        out
    }

    /// Whether no operation is forbidden. Reserved bits do not count.
    pub fn permits_all(self) -> (r: bool)
        ensures
            r == (forall|op: UserOperation| !#[trigger] self.prohibits(op)),
    {
        let ops = self.prohibited_ops();
        proof {
            lemma_prohibited(self);
            if ops@.len() > 0 {
                assert(self.prohibited().contains(ops@[0]));
            }
            assert forall|op: UserOperation| ops@.len() == 0 implies !#[trigger] self.prohibits(
                op,
            ) by {
                assert(!self.prohibited().contains(op));
            }
        }
        ops.len() == 0
    }

    /// The reserved positions whose bits are set, in order.
    pub fn reserved_bits(self) -> (out: Vec<u8>)
        ensures
            out@ == self.reserved(),
    {
        let ghost keep = |bit: u8| !assigned(bit) && self.has_bit(bit);
        let mut out: Vec<u8> = Vec::new();
        let mut bit: u8 = 0;
        proof {
            reveal(Seq::filter);
            assert(all_bits().take(0).filter(keep) =~= Seq::empty());
        }
        while bit < 64
            invariant
                bit <= 64,
                keep == (|bit: u8| !assigned(bit) && self.has_bit(bit)),
                out@ == all_bits().take(bit as int).filter(keep),
            decreases 64 - bit,
        {
            proof {
                lemma_filter_next(all_bits(), keep, bit as int);
            }
            let known = bit <= 33 && bit != 6 && bit != 9 && bit != 22 && bit != 32;
            if !known && self.0 & (1u64 << (63 - bit)) != 0 {
                out.push(bit);
            }
            bit += 1;
        }
        assert(all_bits().take(64) =~= all_bits());
        out
    }

    /// This mask with `op` forbidden.
    #[must_use]
    pub fn with_prohibited(self, op: UserOperation) -> (r: Self)
        ensures
            r.0 == self.0 | op.mask(),
            forall|bit: u8|
                bit < 64 ==> #[trigger] r.has_bit(bit) == (bit == op.bit() || self.has_bit(bit)),
    {
        let r = UoMask(self.0 | op.raw_mask());
        proof {
            assert forall|bit: u8| bit < 64 implies #[trigger] r.has_bit(bit) == (bit == op.bit()
                || self.has_bit(bit)) by {
                lemma_set_bit(self.0, op.bit(), bit);
            }
        }
        r
    }

    /// This mask with `op` permitted.
    #[must_use]
    pub fn with_permitted(self, op: UserOperation) -> (r: Self)
        ensures
            r.0 == self.0 & !op.mask(),
            forall|bit: u8|
                bit < 64 ==> #[trigger] r.has_bit(bit) == (bit != op.bit() && self.has_bit(bit)),
    {
        let r = UoMask(self.0 & !op.raw_mask());
        proof {
            assert forall|bit: u8| bit < 64 implies #[trigger] r.has_bit(bit) == (bit != op.bit()
                && self.has_bit(bit)) by {
                lemma_clear_bit(self.0, op.bit(), bit);
            }
        }
        r
    }
}

/// One more element of a filtered sequence.
proof fn lemma_filter_next<T>(s: Seq<T>, keep: spec_fn(T) -> bool, i: int)
    requires
        0 <= i < s.len(),
    ensures
        s.take(i + 1).filter(keep) == (if keep(s[i]) {
            s.take(i).filter(keep).push(s[i])
        } else {
            s.take(i).filter(keep)
        }),
{
    reveal(Seq::filter);
    assert(s.take(i + 1).drop_last() =~= s.take(i));
    assert(s.take(i + 1).last() == s[i]);
}

proof fn lemma_set_bit(x: u64, a: u8, b: u8)
    requires
        a < 64,
        b < 64,
    ensures
        ((x | bit_mask(a)) & bit_mask(b) != 0) == (a == b || x & bit_mask(b) != 0),
{
    let i = (63 - a) as u8;
    let j = (63 - b) as u8;
    assert((x | (1u64 << i)) & (1u64 << j) != 0 <==> i == j || x & (1u64 << j) != 0)
        by (bit_vector)
        requires
            i < 64,
            j < 64,
    ;
}

proof fn lemma_clear_bit(x: u64, a: u8, b: u8)
    requires
        a < 64,
        b < 64,
    ensures
        ((x & !bit_mask(a)) & bit_mask(b) != 0) == (a != b && x & bit_mask(b) != 0),
{
    let i = (63 - a) as u8;
    let j = (63 - b) as u8;
    assert((x & !(1u64 << i)) & (1u64 << j) != 0 <==> i != j && x & (1u64 << j) != 0)
        by (bit_vector)
        requires
            i < 64,
            j < 64,
    ;
}

// ---------------------------------------------------------------------
// Text
// ---------------------------------------------------------------------

/// The names of the first `n` operations, separated by commas, each comma and
/// the start followed by a space.
pub open spec fn listed(ops: Seq<UserOperation>, n: nat) -> Seq<char>
    decreases n,
{
    if n == 0 {
        Seq::empty()
    } else if n == 1 {
        " "@ + ops[0].label()
    } else {
        listed(ops, (n - 1) as nat) + ", "@ + ops[n - 1].label()
    }
}

impl UoMask {
    /// What the mask forbids, in words.
    pub open spec fn text(self) -> Seq<char> {
        let ops = self.prohibited();
        if ops.len() == 0 && self.reserved().len() == 0 {
            "permit-all"@
        } else {
            "prohibit:"@ + listed(ops, ops.len()) + (if self.reserved().len() > 0 {
                " +reserved"@
            } else {
                Seq::empty()
            })
        }
    }

    /// What the mask forbids, in words: `permit-all`, or the names of the
    /// forbidden operations.
    pub fn to_string(&self) -> (r: String)
        ensures
            r@ == self.text(),
    {
        let ops = self.prohibited_ops();
        let has_reserved = self.reserved_bits().len() > 0;
        let mut s = String::new();
        if ops.len() == 0 && !has_reserved {
            s.append("permit-all");
            assert(s@ =~= "permit-all"@);
            return s;
        }
        s.append("prohibit:");
        let ghost head = "prohibit:"@;
        assert(s@ =~= head + listed(ops@, 0));
        let mut i: usize = 0;
        while i < ops.len()
            invariant
                i <= ops@.len(),
                s@ == head + listed(ops@, i as nat),
            decreases ops@.len() - i,
        {
            if i == 0 {
                s.append(" ");
            } else {
                s.append(", ");
            }
            s.append(ops[i].name());
            i += 1;
            assert(s@ =~= head + listed(ops@, i as nat));
        }
        if has_reserved {
            s.append(" +reserved");
        }
        assert(s@ =~= self.text());
        s
    }
}

// ---------------------------------------------------------------------
// Laws
// ---------------------------------------------------------------------

/// Every operation has a position of its own, and the reserved positions have
/// none.
pub proof fn lemma_positions(a: UserOperation, b: UserOperation)
    ensures
        assigned(a.bit()),
        a.bit() == b.bit() ==> a == b,
        all_operations().contains(a),
{
    let all = all_operations();
    let i = if a.bit() < 6 {
        a.bit() as int
    } else if a.bit() < 9 {
        a.bit() - 1
    } else if a.bit() < 22 {
        a.bit() - 2
    } else if a.bit() < 32 {
        a.bit() - 3
    } else {
        a.bit() - 4
    };
    assert(all[i] == a);
}

/// The listed operations are exactly the forbidden ones.
pub proof fn lemma_prohibited(m: UoMask)
    ensures
        forall|op: UserOperation| #[trigger] m.prohibited().contains(op) <==> m.prohibits(op),
{
    let keep = |op: UserOperation| m.prohibits(op);
    assert forall|op: UserOperation| #[trigger] m.prohibited().contains(op) <==> m.prohibits(op) by {
        lemma_positions(op, op);
        lemma_filter_members(all_operations(), keep, op);
    }
}

/// What a filtered sequence contains.
proof fn lemma_filter_members<T>(s: Seq<T>, keep: spec_fn(T) -> bool, x: T)
    ensures
        s.filter(keep).contains(x) <==> s.contains(x) && keep(x),
    decreases s.len(),
{
    reveal(Seq::filter);
    if s.len() > 0 {
        let t = s.drop_last();
        lemma_filter_members(t, keep, x);
        assert(s =~= t.push(s.last()));
        assert(s.contains(x) <==> t.contains(x) || x == s.last()) by {
            if t.contains(x) {
                let k = choose|k: int| 0 <= k < t.len() && t[k] == x;
                assert(s[k] == x);
            }
            if s.contains(x) {
                let k = choose|k: int| 0 <= k < s.len() && s[k] == x;
                if k < t.len() {
                    assert(t[k] == x);
                }
            }
            if x == s.last() {
                assert(s[s.len() - 1] == x);
            }
        }
        let f = t.filter(keep);
        if keep(s.last()) {
            let g = f.push(s.last());
            assert(g.contains(x) <==> f.contains(x) || x == s.last()) by {
                if f.contains(x) {
                    let k = choose|k: int| 0 <= k < f.len() && f[k] == x;
                    assert(g[k] == x);
                }
                if g.contains(x) {
                    let k = choose|k: int| 0 <= k < g.len() && g[k] == x;
                    if k < f.len() {
                        assert(f[k] == x);
                    }
                }
                if x == s.last() {
                    assert(g[f.len() as int] == x);
                }
            }
        }
    }
}

/// Permitting takes back what forbidding did: an operation that was permitted
/// leaves the mask as it was.
pub proof fn lemma_permit_undoes_prohibit(m: UoMask, op: UserOperation)
    requires
        !m.prohibits(op),
    ensures
        (m.0 | op.mask()) & !op.mask() == m.0,
{
    let x = m.0;
    let i = (63 - op.bit()) as u8;
    assert((x | (1u64 << i)) & !(1u64 << i) == x) by (bit_vector)
        requires
            i < 64,
            x & (1u64 << i) == 0,
    ;
}

/// The mask that forbids nothing forbids no operation and has no reserved bit.
pub proof fn lemma_permit_all()
    ensures
        UoMask(0).prohibited() == Seq::<UserOperation>::empty(),
        UoMask(0).reserved() == Seq::<u8>::empty(),
{
    let m = UoMask(0);
    assert forall|bit: u8| bit < 64 implies !#[trigger] m.has_bit(bit) by {
        let i = (63 - bit) as u8;
        assert(0u64 & (1u64 << i) == 0) by (bit_vector);
    }
    let keep = |op: UserOperation| m.prohibits(op);
    let kept = |bit: u8| !assigned(bit) && m.has_bit(bit);
    if m.prohibited().len() > 0 {
        let op = m.prohibited()[0];
        assert(m.prohibited().contains(op));
        lemma_filter_members(all_operations(), keep, op);
        assert(m.has_bit(op.bit()));
    }
    if m.reserved().len() > 0 {
        let bit = m.reserved()[0];
        assert(m.reserved().contains(bit));
        lemma_filter_members(all_bits(), kept, bit);
        assert(m.has_bit(bit));
    }
    assert(m.prohibited() =~= Seq::empty());
    assert(m.reserved() =~= Seq::empty());
}

/// The positions are counted from the highest bit down.
pub proof fn lemma_bits_counted(m: UoMask, bit: u8)
    requires
        bit < 64,
    ensures
        m.has_bit(bit) <==> (m.0 >> (63 - bit) as u64) % 2 == 1,
{
    let x = m.0;
    let i = (63 - bit) as u8;
    let j = (63 - bit) as u64;
    assert(x & (1u64 << i) != 0 <==> (x >> j) % 2 == 1) by (bit_vector)
        requires
            i < 64,
            j == i,
    ;
}

/// Where the operations stand.
pub proof fn lemma_position_table(op: UserOperation)
    ensures
        op is MenuCall <==> op.bit() == 0,
        op is TitleSearch <==> op.bit() == 1,
        op is ChapterSearch <==> op.bit() == 2,
        op is TimeSearch <==> op.bit() == 3,
        op is SkipToNextPoint <==> op.bit() == 4,
        op is SkipToPrevPoint <==> op.bit() == 5,
        op is Stop <==> op.bit() == 7,
        op is PauseOn <==> op.bit() == 8,
        op is StillOff <==> op.bit() == 10,
        op is ForwardPlay <==> op.bit() == 11,
        op is BackwardPlay <==> op.bit() == 12,
        op is Resume <==> op.bit() == 13,
        op is MoveUpSelectedButton <==> op.bit() == 14,
        op is MoveDownSelectedButton <==> op.bit() == 15,
        op is MoveLeftSelectedButton <==> op.bit() == 16,
        op is MoveRightSelectedButton <==> op.bit() == 17,
        op is SelectButton <==> op.bit() == 18,
        op is ActivateButton <==> op.bit() == 19,
        op is SelectAndActivateButton <==> op.bit() == 20,
        op is PrimaryAudioStreamNumberChange <==> op.bit() == 21,
        op is AngleNumberChange <==> op.bit() == 23,
        op is PopupOn <==> op.bit() == 24,
        op is PopupOff <==> op.bit() == 25,
        op is PrimaryPgEnableDisable <==> op.bit() == 26,
        op is PrimaryPgStreamNumberChange <==> op.bit() == 27,
        op is SecondaryVideoEnableDisable <==> op.bit() == 28,
        op is SecondaryVideoStreamNumberChange <==> op.bit() == 29,
        op is SecondaryAudioEnableDisable <==> op.bit() == 30,
        op is SecondaryAudioStreamNumberChange <==> op.bit() == 31,
        op is SecondaryPgStreamNumberChange <==> op.bit() == 33,
{
}

/// A mask in words: `permit-all` where no bit is set; else the names of what it
/// forbids, and a note where reserved bits are set.
pub proof fn lemma_mask_text(m: UoMask)
    ensures
        UoMask(0).text() == "permit-all"@,
        m.prohibited().len() == 0 && m.reserved().len() == 0 ==> m.text() == "permit-all"@,
        m.prohibited().len() == 1 && m.reserved().len() == 0 ==> m.text() == "prohibit: "@
            + m.prohibited()[0].label(),
        m.prohibited().len() == 2 && m.reserved().len() == 0 ==> m.text() == "prohibit: "@
            + m.prohibited()[0].label() + ", "@ + m.prohibited()[1].label(),
        m.prohibited().len() == 0 && m.reserved().len() > 0 ==> m.text() == "prohibit: +reserved"@,
{
    reveal_strlit("prohibit:");
    reveal_strlit("prohibit: ");
    reveal_strlit(" ");
    reveal_strlit(" +reserved");
    reveal_strlit("prohibit: +reserved");
    reveal_with_fuel(listed, 3);
    lemma_permit_all();
    let ops = m.prohibited();
    if ops.len() == 0 && m.reserved().len() > 0 {
        assert(m.text() =~= "prohibit: +reserved"@);
    }
    if ops.len() == 1 && m.reserved().len() == 0 {
        assert(m.text() =~= "prohibit: "@ + ops[0].label());
    }
    if ops.len() == 2 && m.reserved().len() == 0 {
        assert(m.text() =~= "prohibit: "@ + ops[0].label() + ", "@ + ops[1].label());
    }
}

} // verus!
