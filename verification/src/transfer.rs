//! Transfer rendezvous: a device pushes an offer of files to a peer, and the
//! peer later pulls the bytes of a file by the id it was offered under.

use std::collections::HashMap;
use vstd::prelude::*;
use vstd::string::StringExecFns;
use crate::error::Failure;
use crate::id::{hyphenated, id_text, is_random_shaped, random_id};
use crate::model::{files_view, Info, InfoView, Metadata, MetadataView, Offer, OfferView, Peer};
use crate::text::{decimal, decimal_text};

verus! {

/// Path of the endpoint that takes offers.
pub const OFFER_PATH: &'static str = "/offer";

/// Path under which files are downloaded; the id of the file follows.
pub const DOWNLOAD_PATH: &'static str = "/download/";

/// Directory that downloaded files are written to.
pub const DOWNLOAD_DIR: &'static str = "data/down/";

/// The table after the files were recorded one after the other, each under
/// its id. Of two files with one id the later one stays.
pub open spec fn with_files(m: Map<u128, MetadataView>, files: Seq<MetadataView>) -> Map<
    u128,
    MetadataView,
>
    decreases files.len(),
{
    if files.len() == 0 {
        m
    } else {
        with_files(m, files.drop_last()).insert(files.last().id, files.last())
    }
}

/// Every file is filed under its own id.
pub open spec fn filed_by_id(m: Map<u128, MetadataView>) -> bool {
    forall|id: u128| m.contains_key(id) ==> (#[trigger] m[id]).id == id
}

/// Recording files keeps a table filed by id as it was.
pub proof fn lemma_record_keeps_ids(m: Map<u128, MetadataView>, files: Seq<MetadataView>)
    requires
        filed_by_id(m),
    ensures
        filed_by_id(with_files(m, files)),
    decreases files.len(),
{
    if files.len() > 0 {
        lemma_record_keeps_ids(m, files.drop_last());
        let earlier = with_files(m, files.drop_last());
        let after = with_files(m, files);
        assert forall|id: u128| after.contains_key(id) implies (#[trigger] after[id]).id == id by {
            if id != files.last().id {
                assert(after[id] == earlier[id]);
            }
        }
    }
}

/// A file that was recorded is on offer afterwards, under its own id and
/// as it was offered, unless a later file of the same batch took its id.
pub proof fn lemma_recorded_file_is_kept(m: Map<u128, MetadataView>, files: Seq<MetadataView>, k: int)
    requires
        0 <= k < files.len(),
        forall|j: int| k < j < files.len() ==> (#[trigger] files[j]).id != files[k].id,
    ensures
        with_files(m, files).contains_key(files[k].id),
        with_files(m, files)[files[k].id] == files[k],
    decreases files.len(),
{
    if k < files.len() - 1 {
        let earlier = files.drop_last();
        assert(earlier[k] == files[k]);
        assert forall|j: int| k < j < earlier.len() implies (#[trigger] earlier[j]).id
            != earlier[k].id by {
            assert(earlier[j] == files[j]);
        }
        lemma_recorded_file_is_kept(m, earlier, k);
        assert(files.last() == files[files.len() - 1]);
    }
}

/// Recording files changes nothing under an id that none of them carries:
/// what was on offer under it stays, and what was unknown stays unknown.
pub proof fn lemma_other_ids_untouched(m: Map<u128, MetadataView>, files: Seq<MetadataView>, id: u128)
    requires
        forall|j: int| 0 <= j < files.len() ==> (#[trigger] files[j]).id != id,
    ensures
        with_files(m, files).contains_key(id) == m.contains_key(id),
        m.contains_key(id) ==> with_files(m, files)[id] == m[id],
    decreases files.len(),
{
    if files.len() > 0 {
        let earlier = files.drop_last();
        assert forall|j: int| 0 <= j < earlier.len() implies (#[trigger] earlier[j]).id != id by {
            assert(earlier[j] == files[j]);
        }
        lemma_other_ids_untouched(m, earlier, id);
        assert(files.last() == files[files.len() - 1]);
    }
}

/// The files that have been offered to this device, by id. Whoever knows an
/// id may ask for the file; the table does not remember who offered it.
pub struct OfferTable {
    offers: HashMap<u128, Metadata>,
}

impl View for OfferTable {
    type V = Map<u128, MetadataView>;

    closed spec fn view(&self) -> Map<u128, MetadataView> {
        model_of(self.offers@)
    }
}

/// The stored files as the contracts see them.
spec fn model_of(offers: Map<u128, Metadata>) -> Map<u128, MetadataView> {
    Map::new(|id: u128| offers.contains_key(id), |id: u128| offers[id]@)
}

/// What being filed by id means for the stored files themselves.
proof fn lemma_filed_offers(offers: Map<u128, Metadata>)
    ensures
        filed_by_id(model_of(offers)) <==> forall|id: u128|
            offers.contains_key(id) ==> (#[trigger] offers[id]).id == id,
{
    if filed_by_id(model_of(offers)) {
        assert forall|id: u128| offers.contains_key(id) implies (#[trigger] offers[id]).id == id by {
            assert(model_of(offers)[id].id == id);
        }
    }
}

impl OfferTable {
    /// Holds of every table there is: files are filed under their own id.
    #[verifier::type_invariant]
    pub open spec fn well_formed(&self) -> bool {
        filed_by_id(self@)
    }

    /// A table without offers.
    pub fn new() -> (out: Self)
        ensures
            out@ == Map::<u128, MetadataView>::empty(),
    {
        let offers = HashMap::new();
        assert(model_of(offers@) =~= Map::<u128, MetadataView>::empty());
        OfferTable { offers }
    }

    /// How many files are on offer.
    pub fn len(&self) -> (n: usize)
        ensures
            n == self@.len(),
            self@.dom().finite(),
    {
        assert(self@.dom() =~= self.offers@.dom());
        self.offers.len()
    }

    /// Records every file of an offer under its id.
    pub fn record(&mut self, offer: Offer)
        ensures
            final(self)@ == with_files(old(self)@, offer@.files),
            filed_by_id(final(self)@),
    {
        proof {
            use_type_invariant(&*self);
        }
        let ghost before = self@;
        let ghost all = files_view(offer.files@);
        let mut offers = HashMap::new();
        core::mem::swap(&mut self.offers, &mut offers);
        proof {
            lemma_filed_offers(offers@);
            assert(all.take(0) =~= Seq::<MetadataView>::empty());
        }
        for file in it: offer.files
            invariant
                files_view(it.seq()) == all,
                forall|id: u128| offers@.contains_key(id) ==> (#[trigger] offers@[id]).id == id,
                model_of(offers@) == with_files(before, all.take(it.index())),
        {
            proof {
                let n = it.index();
                assert(all.take(n + 1).drop_last() =~= all.take(n));
                assert(all.take(n + 1).last() == file@);
            }
            let ghost prev = offers@;
            offers.insert(file.id, file);
            assert(model_of(offers@) =~= model_of(prev).insert(file.id, file@));
        }
        proof {
            assert(all.take(all.len() as int) =~= all);
            lemma_filed_offers(offers@);
        }
        self.offers = offers;
    }

    /// The file on offer under `id`, if there is one. The table stays as it
    /// is, so asking twice gives the same answer twice.
    pub fn lookup(&self, id: u128) -> (found: Option<&Metadata>)
        ensures
            found is Some <==> self@.contains_key(id),
            found matches Some(file) ==> file@ == self@[id] && file.id == id,
    {
        proof {
            use_type_invariant(self);
            lemma_filed_offers(self.offers@);
        }
        self.offers.get(&id)
    }
}

/// Serves a `POST` to the offer endpoint. `body` is the offer that the
/// request body parsed to, or `None` where it did not parse.
///
/// A readable offer is recorded and answered with success. An unreadable
/// one is a protocol error and leaves the table as it was.
pub fn handle_offer(table: &mut OfferTable, body: Option<Offer>) -> (outcome: Result<(), Failure>)
    ensures
        match body {
            Some(offer) => outcome == Ok::<(), Failure>(()) && final(table)@ == with_files(
                old(table)@,
                offer@.files,
            ),
            None => outcome == Err::<(), Failure>(Failure::Protocol) && final(table)@ == old(
                table,
            )@,
        },
        filed_by_id(final(table)@),
{
    match body {
        Some(offer) => {
            table.record(offer);
            Ok(())
        },
        None => {
            proof {
                use_type_invariant(&*table);
            }
            Err(Failure::Protocol)
        },
    }
}

/// Where the file called `filename` lies under the data root.
pub open spec fn path_under(root: Seq<char>, filename: Seq<char>) -> Seq<char> {
    root + "/"@ + filename
}

/// What a download of `id` is answered with: the path of the file that was
/// offered under it, or `NotFound`.
pub open spec fn located(m: Map<u128, MetadataView>, id: u128, root: Seq<char>) -> Result<
    Seq<char>,
    Failure,
> {
    if m.contains_key(id) {
        Ok(path_under(root, m[id].filename))
    } else {
        Err(Failure::NotFound)
    }
}

/// Once a file has been offered, every download of its id is answered with
/// the same file, however often it is asked for and whatever is offered
/// under other ids in between.
pub proof fn lemma_download_repeats(
    m: Map<u128, MetadataView>,
    file: MetadataView,
    later: Seq<MetadataView>,
    root: Seq<char>,
)
    requires
        forall|j: int| 0 <= j < later.len() ==> (#[trigger] later[j]).id != file.id,
    ensures
        located(with_files(m, seq![file]), file.id, root) == Ok::<Seq<char>, Failure>(
            path_under(root, file.filename),
        ),
        located(with_files(with_files(m, seq![file]), later), file.id, root) == located(
            with_files(m, seq![file]),
            file.id,
            root,
        ),
{
    let offered = with_files(m, seq![file]);
    lemma_recorded_file_is_kept(m, seq![file], 0);
    lemma_other_ids_untouched(offered, later, file.id);
}

/// A download of an id that was never offered is answered with `NotFound`.
pub proof fn lemma_unknown_id_not_found(
    m: Map<u128, MetadataView>,
    files: Seq<MetadataView>,
    id: u128,
    root: Seq<char>,
)
    requires
        !m.contains_key(id),
        forall|j: int| 0 <= j < files.len() ==> (#[trigger] files[j]).id != id,
    ensures
        located(with_files(m, files), id, root) == Err::<Seq<char>, Failure>(Failure::NotFound),
{
    lemma_other_ids_untouched(m, files, id);
}

/// The path or failure of a download, as the contracts see it.
pub open spec fn located_view(out: Result<String, Failure>) -> Result<Seq<char>, Failure> {
    match out {
        Ok(path) => Ok(path@),
        Err(failure) => Err(failure),
    }
}

/// Serves a `GET` for the file offered under `id`: the path of the file to
/// stream, under the data root `root`, or `NotFound` where nothing was
/// offered under that id. The table is only read, so the same request can
/// be served again and again.
pub fn locate(table: &OfferTable, id: u128, root: &str) -> (out: Result<String, Failure>)
    ensures
        located_view(out) == located(table@, id, root@),
{
    match table.lookup(id) {
        Some(file) => {
            let mut path = String::from_str(root);
            path.append("/");
            path.append(file.filename.as_str());
            Ok(path)
        },
        None => Err(Failure::NotFound),
    }
}

/// How a download ended, given what `locate` found and whether the file
/// could then be read: an unknown id stays `NotFound`, a file that is
/// missing or unreadable when it is to be served is an `Io` failure.
pub fn download_outcome(located: &Result<String, Failure>, readable: bool) -> (outcome: Result<
    (),
    Failure,
>)
    ensures
        match *located {
            Ok(_) => outcome == if readable {
                Ok::<(), Failure>(())
            } else {
                Err::<(), Failure>(Failure::Io)
            },
            Err(failure) => outcome == Err::<(), Failure>(failure),
        },
{
    match located {
        Ok(_) => if readable {
            Ok(())
        } else {
            Err(Failure::Io)
        },
        Err(failure) => Err(*failure),
    }
}

/// An offer of one file.
pub open spec fn single_offer(from: InfoView, id: u128, filename: Seq<char>, size: u64) -> OfferView {
    OfferView { from, files: seq![MetadataView { id, filename, size }] }
}

/// The offer of one file, under the id given.
pub fn make_offer(from: &Info, id: u128, filename: String, size: u64) -> (offer: Offer)
    ensures
        offer@ == single_offer(from@, id, filename@, size),
{
    let mut files: Vec<Metadata> = Vec::new();
    files.push(Metadata { id, filename, size });
    let offer = Offer { from: from.clone(), files };
    assert(offer@.files =~= seq![MetadataView { id, filename: filename@, size }]);
    offer
}

/// The offer of the local file called `filename`, `size` bytes long, with
/// this device as sender and under an id made fresh for this offer.
pub fn prepare_offer(from: &Info, filename: String, size: u64) -> (offer: Offer)
    ensures
        offer@.from == from@,
        offer@.files.len() == 1,
        offer@ == single_offer(from@, offer@.files[0].id, filename@, size),
        is_random_shaped(offer@.files[0].id),
{
    make_offer(from, random_id(), filename, size)
}

/// The address of a device's rendezvous service.
pub open spec fn service_url(ip: Seq<char>, port: u16) -> Seq<char> {
    "http://"@ + ip + ":"@ + decimal(port as nat)
}

fn service(ip: &str, port: u16) -> (url: String)
    ensures
        url@ == service_url(ip@, port),
{
    let mut url = String::from_str("http://");
    url.append(ip);
    url.append(":");
    url.append(decimal_text(port as u64).as_str());
    url
}

/// The URL that an offer to `to` is posted to.
pub fn offer_url(to: &Peer) -> (url: String)
    ensures
        url@ == service_url(to.ip@, to.info.port) + OFFER_PATH@,
{
    let mut url = service(to.ip.as_str(), to.info.port);
    url.append(OFFER_PATH);
    url
}

/// The URL from which the peer at `ip` and `port` serves the file that it
/// was offered under `id`.
pub fn download_url(ip: &str, port: u16, id: u128) -> (url: String)
    ensures
        url@ == service_url(ip@, port) + DOWNLOAD_PATH@ + id_text(id),
{
    let mut url = service(ip, port);
    url.append(DOWNLOAD_PATH);
    url.append(hyphenated(id).as_str());
    url
}

/// Where a downloaded file is written, given the name to store it under.
pub fn download_target(filename: &str) -> (path: String)
    ensures
        path@ == DOWNLOAD_DIR@ + filename@,
{
    let mut path = String::from_str(DOWNLOAD_DIR);
    path.append(filename);
    path
}

} // verus!
