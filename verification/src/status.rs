//! The status response: the JSON document a server answers a ping
//! with, summarizing version, players and message of the day.

use vstd::prelude::*;

use crate::text::{texts_view, ElabV, ElaboratedTextComponent, RawTextComponent, TextV};

verus! {

/// The version block of a status response.
#[derive(Debug)]
pub struct Version {
    pub name: String,
    pub protocol: i32,
}

/// The mathematical shadow of a `Version`.
pub struct VersionV {
    pub name: Seq<char>,
    pub protocol: i32,
}

impl View for Version {
    type V = VersionV;

    open spec fn view(&self) -> VersionV {
        VersionV { name: self.name@, protocol: self.protocol }
    }
}

/// One sampled player in a status response.
#[derive(Debug)]
pub struct Player {
    pub name: String,
    pub id: String,
}

/// The mathematical shadow of a `Player`.
pub struct PlayerV {
    pub name: Seq<char>,
    pub id: Seq<char>,
}

impl View for Player {
    type V = PlayerV;

    open spec fn view(&self) -> PlayerV {
        PlayerV { name: self.name@, id: self.id@ }
    }
}

/// The players block of a status response.
#[derive(Debug)]
pub struct Players {
    pub max: u32,
    pub online: u32,
    pub sample: Vec<Player>,
}

/// The mathematical shadow of a `Players`.
pub struct PlayersV {
    pub max: u32,
    pub online: u32,
    pub sample: Seq<PlayerV>,
}

impl View for Players {
    type V = PlayersV;

    open spec fn view(&self) -> PlayersV {
        PlayersV {
            max: self.max,
            online: self.online,
            sample: self.sample@.map_values(|p: Player| p@),
        }
    }
}

/// The JSON response to a ping.
#[derive(Debug)]
pub struct StatusResponse {
    pub version: Version,
    pub players: Option<Players>,
    pub description: RawTextComponent,
    pub favicon: Option<String>,
}

/// The mathematical shadow of a `StatusResponse`.
pub struct StatusV {
    pub version: VersionV,
    pub players: Option<PlayersV>,
    pub description: TextV,
    pub favicon: Option<Seq<char>>,
}

impl View for StatusResponse {
    type V = StatusV;

    open spec fn view(&self) -> StatusV {
        StatusV {
            version: self.version@,
            players: match self.players {
                Some(ref p) => Some(p@),
                None => None,
            },
            description: self.description@,
            favicon: match self.favicon {
                Some(ref f) => Some(f@),
                None => None,
            },
        }
    }
}

} // verus!
