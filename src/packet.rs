use vstd::prelude::*;

verus! {

/// Connection phase, which selects the packet id table.
#[derive(Debug, Clone, Copy, PartialEq, Eq, Structural)]
pub enum When {
    Status,
    Login,
    Play,
    Handshake,
}

/// Which peer a packet travels to.
#[derive(Debug, Clone, Copy, PartialEq, Eq, Structural)]
pub enum Direction {
    ToServer,
    ToClient,
}

impl When {
    /// Human readable name of the phase.
    pub fn describe(&self) -> (r: &'static str)
        ensures
            *self == When::Status ==> r@ == "getting status"@,
            *self == When::Login ==> r@ == "logging in"@,
            *self == When::Play ==> r@ == "playing"@,
            *self == When::Handshake ==> r@ == "handshaking"@,
    {
        match self {
            When::Status => "getting status",
            When::Login => "logging in",
            When::Play => "playing",
            When::Handshake => "handshaking",
        }
    }
}

/// A packet type: the id, phase and direction under which it travels.
pub trait Packet {
    /// Id, phase and direction of the packet when this client sends it, or
    /// when it is received if the client never sends it.
    spec fn key() -> (u32, When, Direction);

    fn id(&self) -> (r: u32)
        ensures
            r == Self::key().0,
    ;

    fn when(&self) -> (r: When)
        ensures
            r == Self::key().1,
    ;

    fn direction(&self) -> (r: Direction)
        ensures
            r == Self::key().2,
    ;
}

} // verus!
