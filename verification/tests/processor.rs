use bitmapd::ord_api::{BlockData, InscriptionMeta};
use bitmapd::processor::{align_contents, Action, BlockRun, Note, Stage};
use std::collections::HashMap;

/// A block as the fake ord server knows it.
#[derive(Clone)]
struct FakeBlock {
    inscriptions: Option<Vec<String>>,
    transactions: Option<usize>,
}

#[derive(Default)]
struct World {
    blocks: HashMap<u64, FakeBlock>,
    contents: HashMap<String, String>,
    parents: HashMap<String, Option<Vec<Option<String>>>>,
    districts: Vec<(u64, String, u64)>,
    parcels: Vec<(String, u64, u64, String, u64)>,
    last_block: Option<u64>,
    reverse_fetches: bool,
}

impl World {
    fn block(&self, h: u64) -> Option<BlockData> {
        self.blocks.get(&h).map(|b| BlockData {
            inscriptions: b.inscriptions.clone(),
            transaction_count: b.transactions,
        })
    }
}

fn describe(note: Note) -> String {
    match note {
        Note::NoInscriptions { height } => format!("none {}", height),
        Note::FoundInscriptions { count } => format!("found {}", count),
        Note::DistrictAccepted { number, inscription_id } => format!("district+ {} {}", number, inscription_id),
        Note::DistrictDuplicate { number, inscription_id } => format!("district= {} {}", number, inscription_id),
        Note::DistrictInvalid { number, reason } => format!("district! {} {}", number, reason),
        Note::ParcelBlockUnavailable { block_number } => format!("parcel-block {}", block_number),
        Note::ParcelInvalid { tx_index, block_number, reason } => format!("parcel! {}.{} {}", tx_index, block_number, reason),
        Note::ParcelMetadataUnavailable => "parcel-meta".to_string(),
        Note::ParcelWithoutParent => "parcel-no-parent".to_string(),
        Note::ParcelParentNotDistrict => "parcel-parent-not-district".to_string(),
        Note::ParcelAccepted { tx_index, block_number, district, inscription_id } => format!("parcel+ {}.{} {} {}", tx_index, block_number, district, inscription_id),
        Note::ParcelDuplicate { tx_index, block_number, inscription_id } => format!("parcel= {}.{} {}", tx_index, block_number, inscription_id),
    }
}

/// Drives a run against the fake world; `Err` when the block itself is missing.
fn process(world: &mut World, height: u64) -> Result<Vec<String>, String> {
    let (mut run, first) = BlockRun::new(height);
    let mut notes = Vec::new();
    let mut step = first;
    let mut steps = 0;
    loop {
        steps += 1;
        assert!(steps < 10_000);
        if let Some(n) = step.note.take() {
            notes.push(describe(n));
        }
        step = match step.action {
            Action::FetchBlock { height } => match world.block(height) {
                Some(b) => run.on_block(b),
                None => return Err(format!("no block {}", height)),
            },
            Action::FetchContents => {
                let mut fetched: Vec<(String, String)> = run
                    .ids
                    .iter()
                    .filter_map(|id| world.contents.get(id).map(|c| (id.clone(), c.clone())))
                    .collect();
                if world.reverse_fetches {
                    fetched.reverse();
                }
                run.on_contents(&fetched)
            }
            Action::Continue => run.resume(),
            Action::SaveDistrict { number, inscription_id, height } => {
                let taken = world.districts.iter().any(|(n, id, _)| *n == number || *id == inscription_id);
                if !taken {
                    world.districts.push((number, inscription_id, height));
                }
                run.on_district_saved(!taken)
            }
            Action::FetchClaimedBlock { block_number } => run.on_claimed_block(world.block(block_number)),
            Action::FetchInscription { inscription_id } => {
                let meta = world.parents.get(&inscription_id).map(|p| InscriptionMeta { parents: p.clone() });
                run.on_meta(meta)
            }
            Action::LookupDistrict { parent_id } => {
                let found = world.districts.iter().find(|(_, id, _)| *id == parent_id).map(|d| d.0);
                run.on_parent(found)
            }
            Action::SaveParcel { tx_index, block_number, inscription_id, district } => {
                let key = format!("{}.{}", tx_index, block_number);
                let taken = world.parcels.iter().any(|p| p.0 == key);
                if !taken {
                    world.parcels.push((key, tx_index, block_number, inscription_id, district));
                }
                run.on_parcel_saved(!taken)
            }
            Action::SetLastBlock { height } => {
                world.last_block = Some(height);
                run.on_finished()
            }
            Action::Finish => break,
        };
    }
    assert!(matches!(run.stage, Stage::Done));
    Ok(notes)
}

fn ids(v: &[&str]) -> Option<Vec<String>> {
    Some(v.iter().map(|s| s.to_string()).collect())
}

fn sample_world() -> World {
    let mut w = World::default();
    w.blocks.insert(800000, FakeBlock { inscriptions: ids(&["d1", "d2", "junk", "p1", "missing"]), transactions: Some(10) });
    w.blocks.insert(800001, FakeBlock { inscriptions: ids(&["p2", "p3", "p4", "p5", "p6", "p7", "d1again"]), transactions: Some(3) });
    w.blocks.insert(799999, FakeBlock { inscriptions: None, transactions: Some(2) });
    w.contents.insert("d1".into(), "799999.bitmap".into());
    w.contents.insert("d2".into(), "900000.bitmap".into());
    w.contents.insert("junk".into(), "hello".into());
    w.contents.insert("p1".into(), "1.799999.bitmap".into());
    w.contents.insert("p2".into(), "5.799999.bitmap".into());
    w.contents.insert("p3".into(), "0.123.bitmap".into());
    w.contents.insert("p4".into(), "0.799999.bitmap".into());
    w.contents.insert("p5".into(), "1.799999.bitmap".into());
    w.contents.insert("p6".into(), "0.799999.bitmap".into());
    w.contents.insert("p7".into(), "1.799999.bitmap".into());
    w.contents.insert("d1again".into(), "799999.bitmap".into());
    w.parents.insert("p1".into(), Some(vec![None, Some("nobody".into()), Some("d1".into())]));
    w.parents.insert("p4".into(), Some(vec![]));
    w.parents.insert("p5".into(), Some(vec![Some("nobody".into())]));
    w.parents.insert("p8".into(), None);
    w.parents.insert("p7".into(), Some(vec![Some("d1".into())]));
    w
}

#[test]
fn processes_a_block_in_order() {
    let mut w = sample_world();
    let notes = process(&mut w, 800000).unwrap();
    assert_eq!(
        notes,
        vec![
            "found 5",
            "district+ 799999 d1",
            "district! 900000 District 900000 references a future block (Scan block: 800000)",
            "parcel+ 1.799999 799999 p1",
        ]
    );
    assert_eq!(w.last_block, Some(800000));
    assert_eq!(w.districts.len(), 1);
    assert_eq!(w.parcels.len(), 1);
}

#[test]
fn parcel_checks() {
    let mut w = sample_world();
    process(&mut w, 800000).unwrap();
    let notes = process(&mut w, 800001).unwrap();
    assert_eq!(
        notes,
        vec![
            "found 7",
            "parcel! 5.799999 TX Index 5 out of range for block 799999 (Max: 1)",
            "parcel-block 123",
            "parcel-no-parent",
            "parcel-parent-not-district",
            "parcel-meta",
            "parcel= 1.799999 p7",
            "district= 799999 d1again",
        ]
    );
    assert_eq!(w.last_block, Some(800001));
}

#[test]
fn block_without_inscriptions() {
    let mut w = sample_world();
    assert_eq!(process(&mut w, 799999).unwrap(), vec!["none 799999"]);
    assert_eq!(w.last_block, Some(799999));
    w.blocks.insert(5, FakeBlock { inscriptions: Some(vec![]), transactions: None });
    assert_eq!(process(&mut w, 5).unwrap(), Vec::<String>::new());
    assert_eq!(w.last_block, Some(5));
}

#[test]
fn missing_block_is_an_error() {
    let mut w = sample_world();
    assert!(process(&mut w, 1).is_err());
    assert_eq!(w.last_block, None);
}

#[test]
fn claims_are_checked_against_the_block_being_processed() {
    let mut w = World::default();
    w.blocks.insert(792435, FakeBlock { inscriptions: ids(&["a", "b", "c"]), transactions: Some(1) });
    w.blocks.insert(792436, FakeBlock { inscriptions: None, transactions: Some(5) });
    w.contents.insert("a".into(), "792436.bitmap".into());
    w.contents.insert("b".into(), "792435.bitmap".into());
    w.contents.insert("c".into(), "0.792436.bitmap".into());
    let notes = process(&mut w, 792435).unwrap();
    assert_eq!(
        notes,
        vec![
            "found 3",
            "district! 792436 District 792436 references a future block (Scan block: 792435)",
            "district+ 792435 b",
            "parcel! 0.792436 Parcel references future block 792436 (Scan block: 792435)",
        ]
    );
}

#[test]
fn fetch_order_does_not_matter() {
    let mut w1 = sample_world();
    let mut w2 = sample_world();
    w2.reverse_fetches = true;
    for h in [800000u64, 800001] {
        assert_eq!(process(&mut w1, h).unwrap(), process(&mut w2, h).unwrap());
    }
    assert_eq!(w1.districts, w2.districts);
    assert_eq!(w1.parcels, w2.parcels);
}

#[test]
fn duplicate_inscriptions_take_the_last_fetched_content() {
    let ids: Vec<String> = vec!["x".to_string(), "y".to_string()];
    let fetched = vec![
        ("x".to_string(), "1.bitmap".to_string()),
        ("x".to_string(), "2.bitmap".to_string()),
    ];
    let aligned = align_contents(&ids, &fetched);
    assert_eq!(aligned, vec![Some("2.bitmap".to_string()), None]);
}

fn order_world(order: &[&str]) -> World {
    let mut w = World::default();
    w.blocks.insert(800000, FakeBlock { inscriptions: ids(order), transactions: Some(3) });
    w.contents.insert("D".into(), "800000.bitmap".into());
    w.contents.insert("P".into(), "0.800000.bitmap".into());
    w.parents.insert("P".into(), Some(vec![Some("D".into())]));
    w
}

#[test]
fn parcel_before_its_district_is_refused() {
    let mut w = order_world(&["P", "D"]);
    let notes = process(&mut w, 800000).unwrap();
    assert_eq!(notes, vec!["found 2", "parcel-parent-not-district", "district+ 800000 D"]);
    assert_eq!(w.districts, vec![(800000, "D".to_string(), 800000)]);
    assert!(w.parcels.is_empty());
}

#[test]
fn parcel_after_its_district_is_accepted() {
    let mut w = order_world(&["D", "P"]);
    let notes = process(&mut w, 800000).unwrap();
    assert_eq!(notes, vec!["found 2", "district+ 800000 D", "parcel+ 0.800000 800000 P"]);
    assert_eq!(
        w.parcels,
        vec![("0.800000".to_string(), 0, 800000, "P".to_string(), 800000)]
    );
}

#[test]
fn new_run_starts_empty() {
    let (run, step) = BlockRun::new(5);
    assert!(run.ids.is_empty());
    assert!(run.contents.is_empty());
    assert_eq!(run.cursor, 0);
    assert_eq!(run.scan_block, 5);
    assert!(matches!(step.action, Action::FetchBlock { height: 5 }));
}
