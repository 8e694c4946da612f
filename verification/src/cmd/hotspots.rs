//! How a hotspot's state is named in the store and in reports.
use vstd::prelude::*;
use vstd::string::StrSliceExecFns;

verus! {

/// Whether a hotspot is reachable.
#[derive(Clone, Copy, Debug, PartialEq, Eq, Structural)]
pub enum HotspotStatus {
    Online,
    Offline,
}

/// How a hotspot takes part in the network.
#[derive(Clone, Copy, Debug, PartialEq, Eq, Structural)]
pub enum HotspotMode {
    Dataonly,
    Full,
    Light,
}

/// Whether two texts hold the same characters.
pub fn same_text(a: &str, b: &str) -> (r: bool)
    ensures
        r == (a@ == b@),
{
    let n: usize = a.unicode_len();
    if n != b.unicode_len() {
        return false;
    }
    let mut i: usize = 0;
    while i < n
        invariant
            n == a@.len(),
            n == b@.len(),
            i <= n,
            forall|j: int| 0 <= j < i ==> a@[j] == b@[j],
        decreases n - i,
    {
        if a.get_char(i) != b.get_char(i) {
            return false;
        }
        i += 1;
    }
    assert(a@ =~= b@);
    true
}

impl HotspotStatus {
    /// The name of the status, in small letters.
    pub open spec fn name(self) -> Seq<char> {
        match self {
            HotspotStatus::Online => "online"@,
            HotspotStatus::Offline => "offline"@,
        }
    }

    /// The status that a text names.
    pub open spec fn named_by(text: Seq<char>) -> Option<HotspotStatus> {
        if text == HotspotStatus::Online.name() {
            Some(HotspotStatus::Online)
        } else if text == HotspotStatus::Offline.name() {
            Some(HotspotStatus::Offline)
        } else {
            None
        }
    }

    /// The name of the status, in small letters.
    pub fn as_str(&self) -> (r: &'static str)
        ensures
            r@ == self.name(),
    {
        match self {
            HotspotStatus::Online => "online",
            HotspotStatus::Offline => "offline",
        }
    }

    /// Reads the name of a status, in small letters.
    pub fn from_name(name: &str) -> (r: Option<HotspotStatus>)
        ensures
            r == HotspotStatus::named_by(name@),
    {
        if same_text(name, "online") {
            Some(HotspotStatus::Online)
        } else if same_text(name, "offline") {
            Some(HotspotStatus::Offline)
        } else {
            None
        }
    }
}

impl HotspotMode {
    /// The name of the mode, in small letters.
    pub open spec fn name(self) -> Seq<char> {
        match self {
            HotspotMode::Dataonly => "dataonly"@,
            HotspotMode::Full => "full"@,
            HotspotMode::Light => "light"@,
        }
    }

    /// The mode that a text names.
    pub open spec fn named_by(text: Seq<char>) -> Option<HotspotMode> {
        if text == HotspotMode::Dataonly.name() {
            Some(HotspotMode::Dataonly)
        } else if text == HotspotMode::Full.name() {
            Some(HotspotMode::Full)
        } else if text == HotspotMode::Light.name() {
            Some(HotspotMode::Light)
        } else {
            None
        }
    }

    /// The name of the mode, in small letters.
    pub fn as_str(&self) -> (r: &'static str)
        ensures
            r@ == self.name(),
    {
        match self {
            HotspotMode::Dataonly => "dataonly",
            HotspotMode::Full => "full",
            HotspotMode::Light => "light",
        }
    }

    /// Reads the name of a mode, in small letters.
    pub fn from_name(name: &str) -> (r: Option<HotspotMode>)
        ensures
            r == HotspotMode::named_by(name@),
    {
        if same_text(name, "dataonly") {
            Some(HotspotMode::Dataonly)
        } else if same_text(name, "full") {
            Some(HotspotMode::Full)
        } else if same_text(name, "light") {
            Some(HotspotMode::Light)
        } else {
            None
        }
    }
}

/// The names of the two states differ, so each name reads back as its
/// state.
pub proof fn lemma_status_name_round_trip(status: HotspotStatus)
    ensures
        HotspotStatus::named_by(status.name()) == Some(status),
{
    reveal_strlit("online");
    reveal_strlit("offline");
    assert("online"@.len() != "offline"@.len());
}

/// The names of the three modes differ, so each name reads back as its
/// mode.
pub proof fn lemma_mode_name_round_trip(mode: HotspotMode)
    ensures
        HotspotMode::named_by(mode.name()) == Some(mode),
{
    reveal_strlit("dataonly");
    reveal_strlit("full");
    reveal_strlit("light");
    assert("dataonly"@.len() != "full"@.len());
    assert("dataonly"@.len() != "light"@.len());
    assert("full"@.len() != "light"@.len());
}

} // verus!
