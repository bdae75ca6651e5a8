//! The values that travel between devices, and their mathematical views.

use vstd::prelude::*;

verus! {

/// Identifier of a device: the 128 bits of its UUID.
pub type PeerId = u128;

/// A device's description of itself, as it is announced to the network.
#[derive(Debug, PartialEq, Eq)]
pub struct Info {
    pub id: u128,
    pub alias: String,
    pub port: u16,
}

/// What an [`Info`] says, with the alias as a sequence of characters.
pub struct InfoView {
    pub id: u128,
    pub alias: Seq<char>,
    pub port: u16,
}

impl View for Info {
    type V = InfoView;

    open spec fn view(&self) -> InfoView {
        InfoView { id: self.id, alias: self.alias@, port: self.port }
    }
}

impl Clone for Info {
    fn clone(&self) -> (out: Self)
        ensures
            out == *self,
    {
        Info { id: self.id, alias: self.alias.clone(), port: self.port }
    }
}

/// A remote device: what it announced, and the address the announce came from.
/// The address is the one the network layer reported, never one the payload
/// claims.
#[derive(Debug, PartialEq, Eq)]
pub struct Peer {
    pub info: Info,
    pub ip: String,
}

/// What a [`Peer`] says, with text as sequences of characters.
pub struct PeerView {
    pub info: InfoView,
    pub ip: Seq<char>,
}

impl View for Peer {
    type V = PeerView;

    open spec fn view(&self) -> PeerView {
        PeerView { info: self.info@, ip: self.ip@ }
    }
}

impl Clone for Peer {
    fn clone(&self) -> (out: Self)
        ensures
            out == *self,
    {
        Peer { info: self.info.clone(), ip: self.ip.clone() }
    }
}

/// One offered file. The id is made fresh for each offer and is the handle
/// that a later download names.
#[derive(Debug, PartialEq, Eq)]
pub struct Metadata {
    pub id: u128,
    pub filename: String,
    pub size: u64,
}

/// What a [`Metadata`] says, with the file name as a sequence of characters.
pub struct MetadataView {
    pub id: u128,
    pub filename: Seq<char>,
    pub size: u64,
}

impl View for Metadata {
    type V = MetadataView;

    open spec fn view(&self) -> MetadataView {
        MetadataView { id: self.id, filename: self.filename@, size: self.size }
    }
}

impl Clone for Metadata {
    fn clone(&self) -> (out: Self)
        ensures
            out == *self,
    {
        Metadata { id: self.id, filename: self.filename.clone(), size: self.size }
    }
}

/// A batch of file descriptions pushed from one device to another.
#[derive(Debug, PartialEq, Eq)]
pub struct Offer {
    pub from: Info,
    pub files: Vec<Metadata>,
}

/// What an [`Offer`] says: the sender and the files, in order.
pub struct OfferView {
    pub from: InfoView,
    pub files: Seq<MetadataView>,
}

/// The views of a sequence of file descriptions, in the same order.
pub open spec fn files_view(files: Seq<Metadata>) -> Seq<MetadataView> {
    Seq::new(files.len(), |i: int| files[i]@)
}

impl View for Offer {
    type V = OfferView;

    open spec fn view(&self) -> OfferView {
        OfferView { from: self.from@, files: files_view(self.files@) }
    }
}

/// A change in the set of known peers, for whoever displays it.
#[derive(Debug, PartialEq, Eq)]
pub enum Event {
    /// A peer announced itself for the first time.
    Join(Peer),
    /// A peer fell silent and was dropped.
    Leave(PeerId),
}

/// What an [`Event`] says.
pub enum EventView {
    Join(PeerView),
    Leave(u128),
}

impl View for Event {
    type V = EventView;

    open spec fn view(&self) -> EventView {
        match *self {
            Event::Join(peer) => EventView::Join(peer@),
            Event::Leave(id) => EventView::Leave(id),
        }
    }
}

} // verus!
