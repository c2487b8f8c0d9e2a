use pallet_kitties::dna::dna_from;
use pallet_kitties::{BlockContext, Error, Event, Kitty, Origin, Pallet, Sale, MAX_OWNED};
use std::collections::HashMap;

const ALICE: u64 = 1;
const BOB: u64 = 2;

const DEFAULT_KITTY: Kitty = Kitty {
    dna: [0u8; 32],
    owner: 0,
    price: None,
};

fn ctx() -> BlockContext {
    BlockContext {
        parent_hash: [0u8; 32],
        block_number: 1,
        extrinsic_index: Some(0),
    }
}

fn create(p: &mut Pallet, who: u64) -> Result<[u8; 32], Error> {
    p.create_kitty(Origin::Signed(who), &ctx())
}

/// Account balances with an existential deposit of 1: a payer must keep at
/// least that much, as the ledger of the test runtime does.
struct Ledger {
    balances: HashMap<u64, u64>,
}

impl Ledger {
    fn new() -> Ledger {
        Ledger { balances: HashMap::new() }
    }

    fn set_balance(&mut self, who: u64, amount: u64) {
        self.balances.insert(who, amount);
    }

    fn free_balance(&self, who: u64) -> u64 {
        *self.balances.get(&who).unwrap_or(&0)
    }

    fn transfer(&mut self, from: u64, to: u64, amount: u64) -> bool {
        let have = self.free_balance(from);
        if have < amount || have - amount < 1 {
            return false;
        }
        let receive = self.free_balance(to) + amount;
        if receive < 1 {
            return false;
        }
        self.balances.insert(from, have - amount);
        self.balances.insert(to, receive);
        true
    }
}

fn buy(p: &mut Pallet, ledger: &mut Ledger, buyer: u64, id: [u8; 32], max_price: u64) -> Result<(), Error> {
    let paid = match p.buy_quote(buyer, id, max_price) {
        Ok(sale) => ledger.transfer(buyer, sale.seller, sale.price),
        Err(_) => false,
    };
    p.buy_kitty(Origin::Signed(buyer), id, max_price, paid)
}

fn snapshot(p: &Pallet) -> (u32, Vec<Option<Kitty>>, Vec<Vec<[u8; 32]>>, Vec<Event>) {
    let ids = p.kitty_ids();
    let kitties = ids.iter().map(|d| p.get_kitty(d)).collect();
    let owned = (0..5u64).map(|o| p.kitties_owned(o)).collect();
    (p.count_for_kitties(), kitties, owned, p.event_log().clone())
}

#[test]
fn starting_template_is_sane() {
    let mut p = Pallet::new();
    let _event = Event::Created { owner: ALICE, kitty_id: DEFAULT_KITTY.dna };
    assert!(create(&mut p, BOB).is_ok());
}

#[test]
fn create_kitty_checks_signed() {
    let mut p = Pallet::new();
    assert!(create(&mut p, ALICE).is_ok());
    assert_eq!(p.create_kitty(Origin::Unsigned, &ctx()), Err(Error::BadOrigin));
    assert_eq!(p.create_kitty(Origin::Root, &ctx()), Err(Error::BadOrigin));
    assert_eq!(p.count_for_kitties(), 1);
}

#[test]
fn create_kitty_emits_event() {
    let mut p = Pallet::new();
    assert!(create(&mut p, ALICE).is_ok());
    match p.last_event().expect("Event expected") {
        Event::Created { owner, .. } => assert_eq!(owner, ALICE),
        _ => panic!("unexpected event"),
    }
}

#[test]
fn mint_increment_counter() {
    let mut p = Pallet::new();
    assert_eq!(p.count_for_kitties(), u32::default());
    assert!(create(&mut p, ALICE).is_ok());
    assert_eq!(p.count_for_kitties(), 1);
}

#[test]
fn kitties_map_created_correctly() {
    let mut p = Pallet::new();
    let zero_key = [0u8; 32];
    assert!(p.get_kitty(&zero_key).is_none());
    assert_eq!(p.mint(DEFAULT_KITTY.owner, DEFAULT_KITTY.dna), Ok(()));
    assert!(p.get_kitty(&zero_key).is_some());
}

#[test]
fn create_kitty_adds_to_map() {
    let mut p = Pallet::new();
    assert!(create(&mut p, ALICE).is_ok());
    assert_eq!(p.kitty_ids().len(), 1);
}

#[test]
fn raise_error_on_duplicated() {
    let mut p = Pallet::new();
    assert_eq!(p.mint(ALICE, [0u8; 32]), Ok(()));
    assert_eq!(p.kitty_ids().len(), 1);
    assert_eq!(p.mint(BOB, [0u8; 32]), Err(Error::DuplicatedKitty));
    assert_eq!(p.kitty_ids().len(), 1);
}

#[test]
fn mint_stores_owner_in_kitty() {
    let mut p = Pallet::new();
    assert_eq!(p.mint(1337, [42u8; 32]), Ok(()));
    let kitty = p.get_kitty(&[42u8; 32]).unwrap();
    assert_eq!(kitty.owner, 1337);
    assert_eq!(kitty.dna, [42u8; 32]);
}

#[test]
fn create_kitty_unique() {
    let mut p = Pallet::new();
    assert!(create(&mut p, ALICE).is_ok());
    assert!(create(&mut p, BOB).is_ok());
    assert_eq!(p.count_for_kitties(), 2);
    assert_eq!(p.kitty_ids().len(), 2);
}

#[test]
fn kitties_owned_creation() {
    let mut p = Pallet::new();
    assert_eq!(p.kitties_owned(ALICE).len(), 0);
    assert!(create(&mut p, ALICE).is_ok());
    assert!(create(&mut p, ALICE).is_ok());
    assert_eq!(p.kitties_owned(ALICE).len(), 2);
}

#[test]
fn cannot_own_too_many_kitties() {
    let mut p = Pallet::new();
    for _ in 0..100 {
        assert!(create(&mut p, ALICE).is_ok());
    }
    assert_eq!(create(&mut p, 1), Err(Error::TooManyOwned));
}

#[test]
fn transfer_emits_event() {
    let mut p = Pallet::new();
    assert!(create(&mut p, ALICE).is_ok());
    let kitty_id = p.kitty_ids()[0];
    assert_eq!(p.transfer(Origin::Signed(ALICE), BOB, kitty_id), Ok(()));
    assert_eq!(p.last_event(), Some(Event::Transferred { from: ALICE, to: BOB, kitty_id }));
}

#[test]
fn transfer_logic_works() {
    let mut p = Pallet::new();
    assert!(create(&mut p, ALICE).is_ok());
    let kitty_id = p.kitty_ids()[0];
    let kitty = p.get_kitty(&kitty_id).unwrap();
    assert_eq!(kitty.owner, ALICE);
    assert_eq!(p.kitties_owned(ALICE), vec![kitty_id]);
    assert_eq!(p.kitties_owned(BOB), Vec::<[u8; 32]>::new());
    assert_eq!(p.transfer(Origin::Signed(ALICE), ALICE, kitty_id), Err(Error::TransferToSelf));
    assert_eq!(p.transfer(Origin::Signed(ALICE), BOB, [0u8; 32]), Err(Error::NoKitty));
    assert_eq!(p.transfer(Origin::Signed(BOB), ALICE, kitty_id), Err(Error::NotOwner));
    assert_eq!(p.transfer(Origin::Signed(ALICE), BOB, kitty_id), Ok(()));
    assert_eq!(p.kitties_owned(ALICE), Vec::<[u8; 32]>::new());
    assert_eq!(p.kitties_owned(BOB), vec![kitty_id]);
    let kitty = p.get_kitty(&kitty_id).unwrap();
    assert_eq!(kitty.owner, BOB);
}

#[test]
fn set_price_emits_event() {
    let mut p = Pallet::new();
    assert!(create(&mut p, ALICE).is_ok());
    let kitty_id = p.kitty_ids()[0];
    assert_eq!(p.set_price(Origin::Signed(ALICE), kitty_id, Some(1337)), Ok(()));
    assert_eq!(
        p.last_event(),
        Some(Event::PriceSet { owner: ALICE, kitty_id, new_price: Some(1337) })
    );
}

#[test]
fn set_price_logic_works() {
    let mut p = Pallet::new();
    assert!(create(&mut p, ALICE).is_ok());
    let kitty_id = p.kitty_ids()[0];
    assert_eq!(p.get_kitty(&kitty_id).unwrap().price, None);
    assert_eq!(p.set_price(Origin::Signed(ALICE), kitty_id, Some(1337)), Ok(()));
    assert_eq!(p.get_kitty(&kitty_id).unwrap().price, Some(1337));
}

#[test]
fn do_buy_kitty_emits_event() {
    let mut p = Pallet::new();
    let mut ledger = Ledger::new();
    assert!(create(&mut p, ALICE).is_ok());
    let kitty_id = p.kitty_ids()[0];
    assert_eq!(p.set_price(Origin::Signed(ALICE), kitty_id, Some(1337)), Ok(()));
    ledger.set_balance(BOB, 100_000);
    assert_eq!(buy(&mut p, &mut ledger, BOB, kitty_id, 1337), Ok(()));
    assert_eq!(p.last_event(), Some(Event::Sold { buyer: BOB, kitty_id, price: 1337 }));
}

#[test]
fn do_buy_kitty_logic_works() {
    let mut p = Pallet::new();
    let mut ledger = Ledger::new();
    assert!(create(&mut p, ALICE).is_ok());
    let kitty_id = p.kitty_ids()[0];
    assert_eq!(p.get_kitty(&kitty_id).unwrap().owner, ALICE);
    assert_eq!(p.kitties_owned(ALICE), vec![kitty_id]);
    assert_eq!(buy(&mut p, &mut ledger, BOB, [0u8; 32], 1337), Err(Error::NoKitty));
    assert_eq!(buy(&mut p, &mut ledger, BOB, kitty_id, 1337), Err(Error::NotForSale));
    assert_eq!(p.set_price(Origin::Signed(ALICE), kitty_id, Some(1337)), Ok(()));
    assert_eq!(buy(&mut p, &mut ledger, BOB, kitty_id, 1336), Err(Error::MaxPriceTooLow));
    // No funds at all.
    assert_eq!(buy(&mut p, &mut ledger, BOB, kitty_id, 1337), Err(Error::PaymentFailed));
    // Paying would leave the buyer below the existential deposit.
    ledger.set_balance(BOB, 1337);
    assert!(buy(&mut p, &mut ledger, BOB, kitty_id, 1337).is_err());
    ledger.set_balance(BOB, 101_337);
    assert_eq!(buy(&mut p, &mut ledger, BOB, kitty_id, 1337), Ok(()));
    assert_eq!(p.kitties_owned(BOB), vec![kitty_id]);
    let kitty = p.get_kitty(&kitty_id).unwrap();
    assert_eq!(kitty.owner, BOB);
    assert_eq!(kitty.price, None);
    assert_eq!(ledger.free_balance(ALICE), 1337);
    assert_eq!(ledger.free_balance(BOB), 100_000);
}

#[test]
fn created_id_is_the_blake2_digest_of_the_encoded_context() {
    let expected: [u8; 32] = [
        110, 17, 187, 167, 173, 155, 37, 177, 95, 169, 63, 58, 52, 51, 246, 89, 102, 175, 187, 169,
        198, 159, 13, 54, 4, 131, 80, 221, 35, 70, 151, 255,
    ];
    assert_eq!(dna_from(&ctx(), 0), expected);
    assert_eq!(Pallet::new().gen_dna(&ctx()), expected);
    let mut p = Pallet::new();
    assert_eq!(create(&mut p, ALICE), Ok(expected));
    let second: [u8; 32] = [
        89, 130, 164, 69, 229, 182, 196, 96, 185, 243, 142, 133, 104, 193, 229, 107, 241, 82, 228,
        231, 75, 167, 40, 211, 200, 21, 251, 157, 183, 68, 8, 209,
    ];
    assert_eq!(create(&mut p, BOB), Ok(second));
}

#[test]
fn gen_dna_encodes_a_missing_extrinsic_index() {
    let c = BlockContext { parent_hash: [7u8; 32], block_number: 42, extrinsic_index: None };
    let expected: [u8; 32] = [
        187, 122, 164, 112, 219, 120, 202, 114, 141, 164, 67, 222, 44, 203, 229, 27, 222, 124, 19,
        70, 94, 93, 173, 218, 119, 137, 65, 22, 133, 190, 69, 155,
    ];
    assert_eq!(dna_from(&c, 3), expected);
}

#[test]
fn sale_moves_kitty_and_funds() {
    let mut p = Pallet::new();
    let mut ledger = Ledger::new();
    let x = create(&mut p, ALICE).unwrap();
    assert_eq!(p.set_price(Origin::Signed(ALICE), x, Some(100)), Ok(()));
    ledger.set_balance(BOB, 500);
    assert_eq!(p.buy_quote(BOB, x, 150), Ok(Sale { seller: ALICE, price: 100 }));
    assert_eq!(buy(&mut p, &mut ledger, BOB, x, 150), Ok(()));
    let kitty = p.get_kitty(&x).unwrap();
    assert_eq!(kitty.owner, BOB);
    assert_eq!(kitty.price, None);
    assert_eq!(ledger.free_balance(ALICE), 100);
    assert_eq!(ledger.free_balance(BOB), 400);
    assert_eq!(p.kitties_owned(ALICE), Vec::<[u8; 32]>::new());
    assert_eq!(p.kitties_owned(BOB), vec![x]);
}

#[test]
fn offer_below_price_changes_nothing() {
    let mut p = Pallet::new();
    let x = create(&mut p, ALICE).unwrap();
    assert_eq!(p.set_price(Origin::Signed(ALICE), x, Some(100)), Ok(()));
    let before = snapshot(&p);
    assert_eq!(p.buy_quote(BOB, x, 50), Err(Error::MaxPriceTooLow));
    assert_eq!(p.buy_kitty(Origin::Signed(BOB), x, 50, true), Err(Error::MaxPriceTooLow));
    assert_eq!(snapshot(&p), before);
}

#[test]
fn refused_payment_changes_nothing() {
    let mut p = Pallet::new();
    let x = create(&mut p, ALICE).unwrap();
    assert_eq!(p.set_price(Origin::Signed(ALICE), x, Some(100)), Ok(()));
    let before = snapshot(&p);
    assert_eq!(p.do_buy_kitty(BOB, x, 100, false), Err(Error::PaymentFailed));
    assert_eq!(snapshot(&p), before);
}

#[test]
fn owner_cannot_buy_own_kitty() {
    let mut p = Pallet::new();
    let x = create(&mut p, ALICE).unwrap();
    assert_eq!(p.set_price(Origin::Signed(ALICE), x, Some(10)), Ok(()));
    assert_eq!(p.buy_quote(ALICE, x, 10), Err(Error::TransferToSelf));
}

#[test]
fn self_transfer_is_rejected_for_any_kitty() {
    let mut p = Pallet::new();
    let x = create(&mut p, ALICE).unwrap();
    assert_eq!(p.do_transfer(ALICE, ALICE, x), Err(Error::TransferToSelf));
    assert_eq!(p.do_transfer(BOB, BOB, x), Err(Error::TransferToSelf));
    assert_eq!(p.do_transfer(BOB, BOB, [9u8; 32]), Err(Error::TransferToSelf));
}

#[test]
fn transfer_into_full_account_changes_nothing() {
    let mut p = Pallet::new();
    for i in 0..MAX_OWNED {
        assert_eq!(p.mint(BOB, [i as u8; 32]), Ok(()));
    }
    assert_eq!(p.mint(ALICE, [200u8; 32]), Ok(()));
    let before = snapshot(&p);
    assert_eq!(p.do_transfer(ALICE, BOB, [200u8; 32]), Err(Error::TooManyOwned));
    assert_eq!(p.mint(BOB, [201u8; 32]), Err(Error::TooManyOwned));
    assert_eq!(snapshot(&p), before);
}

#[test]
fn set_price_by_stranger_is_refused() {
    let mut p = Pallet::new();
    let x = create(&mut p, ALICE).unwrap();
    assert_eq!(p.set_price(Origin::Signed(BOB), x, Some(5)), Err(Error::NotOwner));
    assert_eq!(p.set_price(Origin::Signed(BOB), [3u8; 32], Some(5)), Err(Error::NoKitty));
    assert_eq!(p.set_price(Origin::Root, x, Some(5)), Err(Error::BadOrigin));
    assert_eq!(p.set_price(Origin::Signed(ALICE), x, Some(5)), Ok(()));
    assert_eq!(p.set_price(Origin::Signed(ALICE), x, None), Ok(()));
    assert_eq!(p.get_kitty(&x).unwrap().price, None);
}

#[test]
fn each_kitty_is_listed_once_under_its_owner() {
    let mut p = Pallet::new();
    let a = [1u8; 32];
    let b = [2u8; 32];
    let c = [3u8; 32];
    assert_eq!(p.mint(1, a), Ok(()));
    assert_eq!(p.mint(1, b), Ok(()));
    assert_eq!(p.mint(1, c), Ok(()));
    assert_eq!(p.do_transfer(1, 2, a), Ok(()));
    assert_eq!(p.do_transfer(2, 3, a), Ok(()));
    assert_eq!(p.do_transfer(1, 3, c), Ok(()));
    for id in p.kitty_ids() {
        let owner = p.get_kitty(&id).unwrap().owner;
        for o in 0..5u64 {
            let n = p.kitties_owned(o).iter().filter(|d| **d == id).count();
            assert_eq!(n, if o == owner { 1 } else { 0 });
        }
    }
    assert_eq!(p.kitties_owned(1), vec![b]);
    let mut three = p.kitties_owned(3);
    three.sort();
    assert_eq!(three, vec![a, c]);
}
