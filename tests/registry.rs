use kitties::genome::{combine, encode_payload, random_value};
use kitties::pallet::{Config, Error, Event, GetDefaultValue, Kitty, Pallet};

const X: u64 = 1;
const Y: u64 = 2;
const Z: u64 = 3;

fn config(max_kitty_id: u32, max_owned: u32) -> Config {
    Config { kitty_price: 10, max_kitty_id, max_owned }
}

fn funded(config: Config, accounts: &[(u64, u128)]) -> Pallet {
    let mut p = Pallet::new(config);
    for (who, amount) in accounts {
        assert!(p.set_free_balance(*who, *amount));
    }
    p
}

fn seed(n: u8) -> [u8; 32] {
    [n; 32]
}

#[test]
fn default_identifier_is_zero() {
    assert_eq!(GetDefaultValue(), 0);
    let p = Pallet::new(config(1000, 2));
    assert_eq!(p.next_kitty_id(), 0);
}

#[test]
fn two_creates_then_capacity_keeps_stake() {
    let mut p = funded(config(1000, 2), &[(X, 100)]);
    assert_eq!(p.create(X, &seed(1), Some(0)), Ok(0));
    assert_eq!(p.create(X, &seed(2), Some(1)), Ok(1));
    assert_eq!(p.all_kitties(X), vec![0, 1]);
    assert_eq!(p.kitty_owner(0), Some(X));
    assert_eq!(p.kitty_owner(1), Some(X));
    assert_eq!(p.reserved_balance(X), 20);
    assert_eq!(p.free_balance(X), 80);
    assert_eq!(p.create(X, &seed(3), Some(2)), Err(Error::OwnTooManyKitties));
    assert_eq!(p.reserved_balance(X), 20);
    assert_eq!(p.free_balance(X), 80);
    assert_eq!(p.next_kitty_id(), 2);
    assert_eq!(p.kitties(2), None);
}

#[test]
fn transfer_moves_ownership_stake_and_inventory() {
    let mut p = funded(config(1000, 2), &[(X, 100), (Y, 10)]);
    assert_eq!(p.create(X, &seed(1), Some(0)), Ok(0));
    assert_eq!(p.create(X, &seed(2), Some(1)), Ok(1));
    assert_eq!(p.transfer(X, 0, Y), Ok(()));
    assert_eq!(p.kitty_owner(0), Some(Y));
    assert_eq!(p.reserved_balance(X), 10);
    assert_eq!(p.free_balance(X), 90);
    assert_eq!(p.reserved_balance(Y), 10);
    assert_eq!(p.free_balance(Y), 0);
    assert_eq!(p.all_kitties(X), vec![1]);
    assert_eq!(p.all_kitties(Y), vec![0]);
    assert_eq!(p.events().last(), Some(&Event::KittyTransferred(X, Y, 0)));
}

#[test]
fn identifiers_count_up_from_zero() {
    let mut p = funded(config(1000, 10), &[(X, 1000), (Y, 1000)]);
    for n in 0..5u32 {
        let who = if n % 2 == 0 { X } else { Y };
        assert_eq!(p.next_kitty_id(), n);
        assert_eq!(p.create(who, &seed(n as u8), Some(n)), Ok(n));
    }
    assert_eq!(p.breed(X, 0, 1, &seed(9), Some(5)), Ok(5));
    assert_eq!(p.next_kitty_id(), 6);
    assert_eq!(p.all_kitties(X), vec![0, 2, 4, 5]);
    assert_eq!(p.all_kitties(Y), vec![1, 3]);
    assert_eq!(p.reserved_balance(X), 40);
    assert_eq!(p.reserved_balance(Y), 20);
}

#[test]
fn identifier_space_excludes_its_bound() {
    let mut p = funded(config(2, 10), &[(X, 100)]);
    assert_eq!(p.create(X, &seed(1), None), Ok(0));
    assert_eq!(p.create(X, &seed(2), None), Ok(1));
    assert_eq!(p.create(X, &seed(3), None), Err(Error::KittyIdOverflow));
    assert_eq!(p.reserved_balance(X), 20);
    assert_eq!(p.next_kitty_id(), 2);
    assert_eq!(p.get_next_id(), Err(Error::KittyIdOverflow));
}

#[test]
fn create_without_funds_fails() {
    let mut p = funded(config(1000, 2), &[(X, 9)]);
    assert_eq!(p.create(X, &seed(1), Some(0)), Err(Error::NotEnoughBalance));
    assert_eq!(p.free_balance(X), 9);
    assert_eq!(p.reserved_balance(X), 0);
    assert_eq!(p.next_kitty_id(), 0);
    assert!(p.events().is_empty());
}

#[test]
fn self_breed_is_rejected() {
    let mut p = funded(config(1000, 5), &[(X, 100)]);
    assert_eq!(p.create(X, &seed(1), Some(0)), Ok(0));
    assert_eq!(p.breed(X, 0, 0, &seed(2), Some(1)), Err(Error::SameKittyId));
    assert_eq!(p.next_kitty_id(), 1);
    assert_eq!(p.reserved_balance(X), 10);
    assert_eq!(p.events().len(), 1);
}

#[test]
fn breed_with_missing_parent_fails() {
    let mut p = funded(config(1000, 5), &[(X, 100)]);
    assert_eq!(p.create(X, &seed(1), Some(0)), Ok(0));
    assert_eq!(p.breed(X, 0, 7, &seed(2), Some(1)), Err(Error::InvalidKittyId));
    assert_eq!(p.get_kitty(7), Err(Error::InvalidKittyId));
    assert_eq!(p.next_kitty_id(), 1);
}

#[test]
fn breed_combines_parents_under_mask() {
    let mut p = funded(config(1000, 5), &[(X, 100), (Y, 100)]);
    assert_eq!(p.new_kitty_with_stake(X, [0xF0; 16]), Ok(0));
    assert_eq!(p.new_kitty_with_stake(X, [0x0F; 16]), Ok(1));
    let mut mask = [0u8; 16];
    mask[0] = 0xFF;
    mask[1] = 0x3C;
    assert_eq!(p.breed_with_selector(Y, 0, 1, mask), Ok(2));
    let child = p.kitties(2).unwrap();
    assert_eq!(child.0[0], 0xF0);
    assert_eq!(child.0[1], 0x33);
    assert_eq!(child.0[2], 0x0F);
    assert_eq!(p.kitty_owner(2), Some(Y));
    assert_eq!(p.reserved_balance(Y), 10);
    assert_eq!(p.events().last(), Some(&Event::KittyCreated(Y, 2, child)));
}

#[test]
fn combine_is_bytewise_selection() {
    let a = [0xAAu8; 16];
    let b = [0x55u8; 16];
    let mut mask = [0u8; 16];
    for (i, m) in mask.iter_mut().enumerate() {
        *m = (i as u8) * 17;
    }
    let r = combine(&a, &b, &mask);
    for i in 0..16 {
        assert_eq!(r[i], (a[i] & mask[i]) | (b[i] & !mask[i]));
    }
    assert_eq!(r[0], 0x55);
    assert_eq!(r[15], 0xAA);
    assert_eq!(combine(&a, &b, &mask), r);
}

#[test]
fn transfer_by_non_owner_changes_nothing() {
    let mut p = funded(config(1000, 2), &[(X, 100), (Y, 100)]);
    assert_eq!(p.create(X, &seed(1), Some(0)), Ok(0));
    assert_eq!(p.transfer(Y, 0, Z), Err(Error::NotOwner));
    assert_eq!(p.kitty_owner(0), Some(X));
    assert_eq!(p.reserved_balance(X), 10);
    assert_eq!(p.reserved_balance(Y), 0);
    assert_eq!(p.all_kitties(X), vec![0]);
    assert_eq!(p.events().len(), 1);
}

#[test]
fn transfer_of_missing_kitty_fails() {
    let mut p = funded(config(1000, 2), &[(X, 100)]);
    assert_eq!(p.transfer(X, 3, Y), Err(Error::InvalidKittyId));
}

#[test]
fn transfer_to_poor_account_fails() {
    let mut p = funded(config(1000, 2), &[(X, 100), (Y, 5)]);
    assert_eq!(p.create(X, &seed(1), Some(0)), Ok(0));
    assert_eq!(p.transfer(X, 0, Y), Err(Error::NotEnoughBalance));
    assert_eq!(p.kitty_owner(0), Some(X));
    assert_eq!(p.free_balance(Y), 5);
}

#[test]
fn transfer_to_full_inventory_keeps_stake() {
    let mut p = funded(config(1000, 1), &[(X, 100), (Y, 100)]);
    assert_eq!(p.create(X, &seed(1), Some(0)), Ok(0));
    assert_eq!(p.create(Y, &seed(2), Some(1)), Ok(1));
    assert_eq!(p.transfer(X, 0, Y), Err(Error::OwnTooManyKitties));
    assert_eq!(p.reserved_balance(Y), 10);
    assert_eq!(p.free_balance(Y), 90);
    assert_eq!(p.reserved_balance(X), 10);
    assert_eq!(p.all_kitties(Y), vec![1]);
    assert_eq!(p.kitty_owner(0), Some(X));
}

#[test]
fn transfer_to_self_moves_id_to_end() {
    let mut p = funded(config(1000, 2), &[(X, 100)]);
    assert_eq!(p.create(X, &seed(1), Some(0)), Ok(0));
    assert_eq!(p.create(X, &seed(2), Some(1)), Ok(1));
    assert_eq!(p.transfer(X, 0, X), Ok(()));
    assert_eq!(p.all_kitties(X), vec![1, 0]);
    assert_eq!(p.reserved_balance(X), 20);
    assert_eq!(p.free_balance(X), 80);
}

#[test]
fn stake_matches_inventory_after_mixed_calls() {
    let mut p = funded(config(1000, 3), &[(X, 100), (Y, 100), (Z, 100)]);
    assert_eq!(p.create(X, &seed(1), Some(0)), Ok(0));
    assert_eq!(p.create(Y, &seed(2), Some(1)), Ok(1));
    assert_eq!(p.breed(Z, 0, 1, &seed(3), Some(2)), Ok(2));
    assert_eq!(p.transfer(Z, 2, X), Ok(()));
    assert_eq!(p.transfer(Y, 1, X), Ok(()));
    for who in [X, Y, Z] {
        let owned = p.all_kitties(who);
        assert_eq!(p.reserved_balance(who), 10 * owned.len() as u128);
        for id in owned {
            assert_eq!(p.kitty_owner(id), Some(who));
        }
    }
    assert_eq!(p.all_kitties(X), vec![0, 2, 1]);
}

#[test]
fn genome_comes_from_seed_caller_and_index() {
    let a = random_value(&seed(1), X, Some(0));
    assert_eq!(random_value(&seed(1), X, Some(0)), a);
    assert_ne!(random_value(&seed(1), Y, Some(0)), a);
    assert_ne!(random_value(&seed(1), X, Some(1)), a);
    assert_ne!(random_value(&seed(2), X, Some(0)), a);
    let mut p = funded(config(1000, 2), &[(X, 100)]);
    assert_eq!(p.create(X, &seed(1), Some(0)), Ok(0));
    assert_eq!(p.kitties(0), Some(Kitty(a)));
}

#[test]
fn payload_is_scale_encoded_tuple() {
    let bytes = encode_payload(&seed(7), 0x0102030405060708, Some(0x0A0B0C0D));
    assert_eq!(bytes.len(), 32 + 8 + 5);
    assert_eq!(&bytes[..32], &[7u8; 32]);
    assert_eq!(&bytes[32..40], &[8, 7, 6, 5, 4, 3, 2, 1]);
    assert_eq!(&bytes[40..], &[1, 0x0D, 0x0C, 0x0B, 0x0A]);
    let none = encode_payload(&seed(0), 5, None);
    assert_eq!(&none[32..], &[5, 0, 0, 0, 0, 0, 0, 0, 0]);
}

#[test]
fn genome_of_zero_seed_is_not_zero() {
    let r = random_value(&[0u8; 32], 0, None);
    assert_ne!(r, [0u8; 16]);
}

#[test]
fn listing_price_slot_is_inert() {
    let mut p = funded(config(1000, 2), &[(X, 100)]);
    assert_eq!(p.create(X, &seed(1), Some(0)), Ok(0));
    assert_eq!(p.kitties_list_for_sales(0), None);
}

#[test]
fn oversized_balance_is_refused() {
    let mut p = funded(config(1000, 2), &[(X, 100)]);
    assert_eq!(p.create(X, &seed(1), Some(0)), Ok(0));
    assert!(!p.set_free_balance(X, u128::MAX));
    assert_eq!(p.free_balance(X), 90);
    assert!(p.set_free_balance(X, u128::MAX - 10));
}
