//! Identifiers: pipelines, teams, and the text codec that pull-request and
//! commit identifiers have to supply.

use vstd::prelude::*;

verus! {

/// One managed repository and target branch.
#[derive(Clone, Copy, Debug, PartialEq, Eq, Hash, Structural)]
pub struct PipelineId(pub i32);

/// A group with write access. Zero is never a valid team.
#[derive(Clone, Copy, Debug, PartialEq, Eq, Hash, Structural)]
pub struct TeamId(pub u32);

impl TeamId {
    pub open spec fn valid(self) -> bool {
        self.0 != 0
    }

    /// The signed 32-bit integer with the same bits, as the team column stores it.
    pub open spec fn column(self) -> i32 {
        if self.0 <= i32::MAX {
            self.0 as i32
        } else {
            (self.0 - 0x1_0000_0000) as i32
        }
    }

    /// The team that a stored column stands for; zero stands for none.
    pub open spec fn of_column(c: i32) -> Option<TeamId> {
        if c == 0 {
            None
        } else if c > 0 {
            Some(TeamId(c as u32))
        } else {
            Some(TeamId((c + 0x1_0000_0000) as u32))
        }
    }

    pub fn is_valid(&self) -> (b: bool)
        ensures
            b == self.valid(),
    {
        self.0 != 0
    }

    pub fn to_column(&self) -> (c: i32)
        ensures
            c == self.column(),
    {
        if self.0 <= 0x7fff_ffff {
            self.0 as i32
        } else {
            (self.0 as i64 - 0x1_0000_0000) as i32
        }
    }

    pub fn from_column(c: i32) -> (t: Option<TeamId>)
        ensures
            t == TeamId::of_column(c),
    {
        if c == 0 {
            None
        } else if c > 0 {
            Some(TeamId(c as u32))
        } else {
            Some(TeamId((c as i64 + 0x1_0000_0000) as u32))
        }
    }

    /// A valid team is read back from its column unchanged.
    pub proof fn column_round_trip(self)
        requires
            self.valid(),
        ensures
            TeamId::of_column(self.column()) == Some(self),
    {
    }

    /// Distinct teams are stored as distinct columns.
    pub proof fn column_injective(self, other: TeamId)
        requires
            self.column() == other.column(),
        ensures
            self == other,
    {
    }
}

/// An identifier with a canonical text form.
///
/// Pull-request and commit identifiers are persisted as text. A type that is
/// used as one says what its text is, which texts its decoder accepts, and
/// proves that decoding the text of a value gives that value back.
pub trait TextId: Sized {
    /// The canonical text of this identifier.
    spec fn text(&self) -> Seq<char>;

    /// The identifier that a text decodes to, if it decodes.
    spec fn parse(text: Seq<char>) -> Option<Self>;

    /// Decoding is the inverse of encoding.
    proof fn round_trip(&self)
        ensures
            Self::parse(self.text()) == Some(*self),
    ;

    fn encode(&self) -> (s: String)
        ensures
            s@ == self.text(),
    ;

    fn decode(text: &str) -> (id: Option<Self>)
        ensures
            id == Self::parse(text@),
    ;
}

/// Two identifiers with the same text are the same identifier.
pub proof fn text_injective<T: TextId>(a: T, b: T)
    requires
        a.text() == b.text(),
    ensures
        a == b,
{
    a.round_trip();
    b.round_trip();
}

} // verus!
