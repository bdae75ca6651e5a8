use proto::error::{check_status, http_status, Failure};
use proto::model::{Info, Metadata, Offer, Peer};
use proto::transfer::{
    download_outcome, download_target, download_url, handle_offer, locate, make_offer, offer_url,
    prepare_offer, OfferTable, DOWNLOAD_DIR, DOWNLOAD_PATH, OFFER_PATH,
};

fn has_random_shape(id: u128) -> bool {
    (id >> 76) & 0xf == 4 && (id >> 62) & 0x3 == 2
}

fn sender() -> Info {
    Info { id: 0xa1, alias: "A".to_string(), port: 8000 }
}

fn file(id: u128, name: &str, size: u64) -> Metadata {
    Metadata { id, filename: name.to_string(), size }
}

#[test]
fn the_routes() {
    assert_eq!(OFFER_PATH, "/offer");
    assert_eq!(DOWNLOAD_PATH, "/download/");
    assert_eq!(DOWNLOAD_DIR, "data/down/");
}

#[test]
fn an_offer_records_every_file_under_its_id() {
    let mut table = OfferTable::new();
    assert_eq!(table.len(), 0);
    table.record(Offer { from: sender(), files: vec![file(1, "a.txt", 10), file(2, "b.txt", 20)] });
    assert_eq!(table.len(), 2);
    assert_eq!(table.lookup(1), Some(&file(1, "a.txt", 10)));
    assert_eq!(table.lookup(2), Some(&file(2, "b.txt", 20)));
    assert_eq!(table.lookup(3), None);
}

#[test]
fn an_offer_without_files_changes_nothing() {
    let mut table = OfferTable::new();
    table.record(Offer { from: sender(), files: vec![file(1, "a.txt", 10)] });
    table.record(Offer { from: sender(), files: vec![] });
    assert_eq!(table.len(), 1);
    assert_eq!(table.lookup(1), Some(&file(1, "a.txt", 10)));
}

#[test]
fn of_two_files_with_one_id_the_later_stays() {
    let mut table = OfferTable::new();
    table.record(Offer { from: sender(), files: vec![file(1, "first", 1), file(1, "second", 2)] });
    assert_eq!(table.len(), 1);
    assert_eq!(table.lookup(1), Some(&file(1, "second", 2)));
    table.record(Offer { from: sender(), files: vec![file(1, "third", 3)] });
    assert_eq!(table.lookup(1), Some(&file(1, "third", 3)));
}

#[test]
fn offers_of_any_sender_share_one_table() {
    let mut table = OfferTable::new();
    table.record(Offer { from: sender(), files: vec![file(1, "a", 1)] });
    let other = Info { id: 0xc3, alias: "C".to_string(), port: 8002 };
    table.record(Offer { from: other, files: vec![file(2, "c", 2)] });
    assert_eq!(table.lookup(1), Some(&file(1, "a", 1)));
    assert_eq!(table.lookup(2), Some(&file(2, "c", 2)));
}

#[test]
fn a_readable_offer_is_accepted() {
    let mut table = OfferTable::new();
    let outcome = handle_offer(&mut table, Some(Offer { from: sender(), files: vec![file(9, "f", 3)] }));
    assert_eq!(outcome, Ok(()));
    assert_eq!(http_status(outcome), 200);
    assert_eq!(table.lookup(9), Some(&file(9, "f", 3)));
}

#[test]
fn an_unreadable_offer_is_a_protocol_error() {
    let mut table = OfferTable::new();
    table.record(Offer { from: sender(), files: vec![file(9, "f", 3)] });
    let outcome = handle_offer(&mut table, None);
    assert_eq!(outcome, Err(Failure::Protocol));
    assert_eq!(http_status(outcome), 400);
    assert_eq!(table.len(), 1);
    assert_eq!(table.lookup(9), Some(&file(9, "f", 3)));
}

#[test]
fn a_download_of_an_offered_id_names_the_file_under_the_root() {
    let mut table = OfferTable::new();
    table.record(Offer { from: sender(), files: vec![file(9, "photo.jpg", 3)] });
    assert_eq!(locate(&table, 9, "data/up"), Ok("data/up/photo.jpg".to_string()));
    assert_eq!(locate(&table, 9, ""), Ok("/photo.jpg".to_string()));
}

#[test]
fn a_download_can_be_repeated() {
    let mut table = OfferTable::new();
    table.record(Offer { from: sender(), files: vec![file(9, "photo.jpg", 3)] });
    let first = locate(&table, 9, "data/up");
    let second = locate(&table, 9, "data/up");
    assert_eq!(first, second);
    assert_eq!(first, Ok("data/up/photo.jpg".to_string()));
    table.record(Offer { from: sender(), files: vec![file(10, "other", 1)] });
    assert_eq!(locate(&table, 9, "data/up"), first);
    assert_eq!(table.len(), 2);
}

#[test]
fn a_download_of_an_unknown_id_is_not_found() {
    let mut table = OfferTable::new();
    assert_eq!(locate(&table, 9, "data/up"), Err(Failure::NotFound));
    table.record(Offer { from: sender(), files: vec![file(9, "photo.jpg", 3)] });
    let missing = locate(&table, 10, "data/up");
    assert_eq!(missing, Err(Failure::NotFound));
    assert_eq!(http_status(download_outcome(&missing, true)), 404);
    assert_eq!(http_status(download_outcome(&missing, false)), 404);
    assert_eq!(table.len(), 1);
    assert_eq!(table.lookup(9), Some(&file(9, "photo.jpg", 3)));
    assert_eq!(table.lookup(10), None);
}

#[test]
fn how_a_download_ends() {
    let found: Result<String, Failure> = Ok("data/up/f".to_string());
    assert_eq!(download_outcome(&found, true), Ok(()));
    assert_eq!(download_outcome(&found, false), Err(Failure::Io));
    assert_eq!(http_status(download_outcome(&found, true)), 200);
    assert_eq!(http_status(download_outcome(&found, false)), 500);
    assert_eq!(download_outcome(&Err(Failure::NotFound), true), Err(Failure::NotFound));
}

#[test]
fn the_status_of_each_failure() {
    assert_eq!(http_status(Ok(())), 200);
    assert_eq!(http_status(Err(Failure::Protocol)), 400);
    assert_eq!(http_status(Err(Failure::NotFound)), 404);
    assert_eq!(http_status(Err(Failure::Io)), 500);
    assert_eq!(http_status(Err(Failure::Serialization)), 500);
    assert_eq!(http_status(Err(Failure::Network)), 500);
}

#[test]
fn only_a_success_status_is_a_success() {
    assert_eq!(check_status(200), Ok(()));
    assert_eq!(check_status(204), Ok(()));
    assert_eq!(check_status(299), Ok(()));
    assert_eq!(check_status(199), Err(Failure::Network));
    assert_eq!(check_status(300), Err(Failure::Network));
    assert_eq!(check_status(400), Err(Failure::Network));
    assert_eq!(check_status(404), Err(Failure::Network));
    assert_eq!(check_status(500), Err(Failure::Network));
    assert_eq!(check_status(0), Err(Failure::Network));
    assert_eq!(check_status(u16::MAX), Err(Failure::Network));
}

#[test]
fn an_offer_of_one_file() {
    let offer = make_offer(&sender(), 77, "report.pdf".to_string(), 100);
    assert_eq!(offer, Offer { from: sender(), files: vec![file(77, "report.pdf", 100)] });
}

#[test]
fn a_prepared_offer_has_a_fresh_random_id() {
    let first = prepare_offer(&sender(), "report.pdf".to_string(), 100);
    let second = prepare_offer(&sender(), "report.pdf".to_string(), 100);
    assert_eq!(first.from, sender());
    assert_eq!(first.files.len(), 1);
    assert_eq!(first.files[0].filename, "report.pdf");
    assert_eq!(first.files[0].size, 100);
    assert!(has_random_shape(first.files[0].id));
    assert!(has_random_shape(second.files[0].id));
    assert_ne!(first.files[0].id, second.files[0].id);
}

#[test]
fn where_an_offer_is_posted() {
    let to = Peer {
        info: Info { id: 0xb2, alias: "B".to_string(), port: 8001 },
        ip: "192.168.1.7".to_string(),
    };
    assert_eq!(offer_url(&to), "http://192.168.1.7:8001/offer");
    let far = Peer { info: Info { id: 1, alias: String::new(), port: 65535 }, ip: "h".to_string() };
    assert_eq!(offer_url(&far), "http://h:65535/offer");
    let zero = Peer { info: Info { id: 1, alias: String::new(), port: 0 }, ip: String::new() };
    assert_eq!(offer_url(&zero), "http://:0/offer");
}

#[test]
fn where_a_file_is_downloaded_from() {
    assert_eq!(
        download_url("192.168.1.7", 8001, 0x936da01f_9abd_4d9d_80c7_02af85c822a8),
        "http://192.168.1.7:8001/download/936da01f-9abd-4d9d-80c7-02af85c822a8"
    );
    assert_eq!(
        download_url("10.0.0.1", 80, 0xb2),
        "http://10.0.0.1:80/download/00000000-0000-0000-0000-0000000000b2"
    );
    assert_eq!(
        download_url("h", 1, 0),
        "http://h:1/download/00000000-0000-0000-0000-000000000000"
    );
    assert_eq!(
        download_url("h", 1, u128::MAX),
        "http://h:1/download/ffffffff-ffff-ffff-ffff-ffffffffffff"
    );
    assert_eq!(
        download_url("h", 1, 0x01234567_89ab_cdef_0123_456789abcdef),
        "http://h:1/download/01234567-89ab-cdef-0123-456789abcdef"
    );
}

#[test]
fn where_a_download_is_written() {
    assert_eq!(download_target("photo.jpg"), "data/down/photo.jpg");
    assert_eq!(download_target(""), "data/down/");
}
