//! What the two peers of a session know of each other.
use vstd::prelude::*;

verus! {

/// A padding scheme: its text, the digest by which peers compare schemes, and the packet at
/// which padding stops.
#[derive(Debug)]
pub struct PaddingFactory {
    raw_scheme: Vec<u8>,
    md5: String,
    stop: u32,
}

/// The mathematical value of a [`PaddingFactory`].
pub struct PaddingView {
    pub raw_scheme: Seq<u8>,
    pub md5: Seq<char>,
    pub stop: u32,
}

impl View for PaddingFactory {
    type V = PaddingView;

    closed spec fn view(&self) -> PaddingView {
        PaddingView { raw_scheme: self.raw_scheme@, md5: self.md5@, stop: self.stop }
    }
}

impl PaddingFactory {
    /// The scheme with these parts.
    pub fn from_parts(raw_scheme: Vec<u8>, md5: String, stop: u32) -> (p: PaddingFactory)
        ensures
            p@ == (PaddingView { raw_scheme: raw_scheme@, md5: md5@, stop }),
    {
        PaddingFactory { raw_scheme, md5, stop }
    }

    /// The text of the scheme.
    pub fn raw_scheme(&self) -> (s: &[u8])
        ensures
            s@ == self@.raw_scheme,
    {
        self.raw_scheme.as_slice()
    }

    /// The digest of the scheme.
    pub fn md5(&self) -> (s: &str)
        ensures
            s@ == self@.md5,
    {
        self.md5.as_str()
    }

    /// The packet at which padding stops.
    pub fn stop(&self) -> (n: u32)
        ensures
            n == self@.stop,
    {
        self.stop
    }
}

/// The negotiated state of one session.
#[derive(Debug)]
pub struct State {
    padding: PaddingFactory,
    peer_version: u8,
    received_settings_from_client: bool,
}

/// The mathematical value of a [`State`].
pub struct StateView {
    pub padding: PaddingView,
    pub peer_version: u8,
    pub received_settings_from_client: bool,
}

impl View for State {
    type V = StateView;

    closed spec fn view(&self) -> StateView {
        StateView {
            padding: self.padding@,
            peer_version: self.peer_version,
            received_settings_from_client: self.received_settings_from_client,
        }
    }
}

/// The state before anything was negotiated.
pub open spec fn new_state(padding: PaddingView) -> StateView {
    StateView { padding, peer_version: 0, received_settings_from_client: false }
}

impl State {
    /// A state in which nothing has been negotiated yet.
    pub fn new(padding: PaddingFactory) -> (s: State)
        ensures
            s@ == new_state(padding@),
    {
        State { padding, peer_version: 0, received_settings_from_client: false }
    }

    /// The padding scheme in use.
    pub fn padding(&self) -> (p: &PaddingFactory)
        ensures
            p@ == self@.padding,
    {
        &self.padding
    }

    /// Uses another padding scheme from now on.
    pub fn set_padding(&mut self, padding: PaddingFactory)
        ensures
            final(self)@ == (StateView { padding: padding@, ..old(self)@ }),
    {
        self.padding = padding;
    }

    /// The protocol version that the peer announced, 0 before it did.
    pub fn peer_version(&self) -> (v: u8)
        ensures
            v == self@.peer_version,
    {
        self.peer_version
    }

    /// Remembers the protocol version of the peer.
    pub fn set_peer_version(&mut self, version: u8)
        ensures
            final(self)@ == (StateView { peer_version: version, ..old(self)@ }),
    {
        self.peer_version = version;
    }

    /// Whether the client has sent its settings.
    pub fn received_settings_from_client(&self) -> (b: bool)
        ensures
            b == self@.received_settings_from_client,
    {
        self.received_settings_from_client
    }

    /// Remembers that the client has sent its settings.
    pub fn mark_received_settings_from_client(&mut self)
        ensures
            final(self)@ == (StateView { received_settings_from_client: true, ..old(self)@ }),
    {
        self.received_settings_from_client = true;
    }
}

} // verus!
