use ip_geo::Error;
use ip_geo::IpAddrEntry;
use ip_geo::IpAddrMap;

/// The integer form of a dotted-quad IPv4 address.
fn ipv4(a: u32, b: u32, c: u32, d: u32) -> u32 {
    (a << 24) | (b << 16) | (c << 8) | d
}

/// The integer form of an IPv6 address given as eight 16-bit groups.
fn ipv6(groups: [u128; 8]) -> u128 {
    let mut out: u128 = 0;
    for g in groups {
        out = (out << 16) | g;
    }
    out
}

fn entry_u32(start: u32, end: u32, value: &str) -> IpAddrEntry<u32, String> {
    IpAddrEntry::new(start, end, String::from(value)).unwrap()
}

#[test]
fn scenario_ipv4_two_ranges() {
    let mut map: IpAddrMap<u32, String> = IpAddrMap::new();
    map.insert(entry_u32(ipv4(1, 1, 1, 1), ipv4(3, 3, 3, 3), "BE"));
    map.insert(entry_u32(ipv4(4, 4, 4, 4), ipv4(6, 6, 6, 6), "CA"));

    assert_eq!(map.search(ipv4(2, 2, 2, 2)), Ok(&String::from("BE")));
    assert_eq!(map.search(ipv4(5, 5, 5, 5)), Ok(&String::from("CA")));
    assert_eq!(map.search(ipv4(3, 3, 3, 4)), Err(Error::NoValueFound));
    assert_eq!(map.search(ipv4(1, 1, 1, 1)), Ok(&String::from("BE")));
    assert_eq!(map.search(ipv4(3, 3, 3, 3)), Ok(&String::from("BE")));
}

#[test]
fn scenario_ipv4_two_ranges_reversed_insertion() {
    let mut map: IpAddrMap<u32, String> = IpAddrMap::new();
    map.insert(entry_u32(ipv4(4, 4, 4, 4), ipv4(6, 6, 6, 6), "CA"));
    map.insert(entry_u32(ipv4(1, 1, 1, 1), ipv4(3, 3, 3, 3), "BE"));

    assert_eq!(map.search(ipv4(2, 2, 2, 2)), Ok(&String::from("BE")));
    assert_eq!(map.search(ipv4(5, 5, 5, 5)), Ok(&String::from("CA")));
    assert_eq!(map.search(ipv4(3, 3, 3, 4)), Err(Error::NoValueFound));
    assert_eq!(map.search(ipv4(1, 1, 1, 1)), Ok(&String::from("BE")));
    assert_eq!(map.search(ipv4(3, 3, 3, 3)), Ok(&String::from("BE")));

    // After cleanup the entries stand in sorted order, whatever the
    // insertion order was.
    let first = map.get_from_index_as_ref(0).unwrap();
    assert_eq!(*first.start(), ipv4(1, 1, 1, 1));
    let second = map.get_from_index_as_ref(1).unwrap();
    assert_eq!(*second.start(), ipv4(4, 4, 4, 4));
}

#[test]
fn scenario_ipv6_two_ranges() {
    let one = ipv6([1, 0, 0, 0, 0, 0, 0, 0]);
    let two = ipv6([2, 0, 0, 0, 0, 0, 0, 0]);
    let three = ipv6([3, 0, 0, 0, 0, 0, 0, 0]);
    let four = ipv6([4, 0, 0, 0, 0, 0, 0, 0]);
    let five = ipv6([5, 0, 0, 0, 0, 0, 0, 0]);
    let six = ipv6([6, 0, 0, 0, 0, 0, 0, 0]);

    let mut map: IpAddrMap<u128, String> = IpAddrMap::new();
    map.insert(IpAddrEntry::new(one, three, String::from("BE")).unwrap());
    map.insert(IpAddrEntry::new(four, six, String::from("CA")).unwrap());

    assert_eq!(map.search(two), Ok(&String::from("BE")));
    assert_eq!(map.search(five), Ok(&String::from("CA")));
    assert_eq!(map.search(three + 1), Err(Error::NoValueFound));
    assert_eq!(map.search(one), Ok(&String::from("BE")));
    assert_eq!(map.search(six), Ok(&String::from("CA")));
}

#[test]
fn range_validity() {
    // An inverted range always fails with EmptyRangeError.
    let bad: Result<IpAddrEntry<u32, String>, Error> =
        IpAddrEntry::new(10, 5, String::from("x"));
    assert_eq!(bad.unwrap_err(), Error::EmptyRangeError);

    // A single-address range always succeeds, and a lookup on that one
    // address finds it.
    let single = IpAddrEntry::new(7u32, 7u32, String::from("y"));
    assert!(single.is_ok());
    let mut map: IpAddrMap<u32, String> = IpAddrMap::new();
    map.insert(single.unwrap());
    assert_eq!(map.search(7), Ok(&String::from("y")));
    assert_eq!(map.search(6), Err(Error::NoValueFound));
    assert_eq!(map.search(8), Err(Error::NoValueFound));
}

#[test]
fn duplicate_collapse() {
    let mut map: IpAddrMap<u32, String> = IpAddrMap::new();
    map.insert(entry_u32(100, 200, "NL"));
    map.insert(entry_u32(100, 200, "NL"));
    assert_eq!(map.len(), 2);
    map.cleanup();
    assert_eq!(map.len(), 1);
    assert_eq!(map.try_search(150), Ok(&String::from("NL")));
    assert_eq!(map.try_search(100), Ok(&String::from("NL")));
    assert_eq!(map.try_search(200), Ok(&String::from("NL")));
}

#[test]
fn cleanup_idempotent() {
    let mut map: IpAddrMap<u32, String> = IpAddrMap::new();
    map.insert(entry_u32(40, 60, "b"));
    map.insert(entry_u32(10, 20, "a"));
    map.insert(entry_u32(40, 60, "b"));
    map.insert(entry_u32(70, 90, "c"));
    map.cleanup();

    let after_once: Vec<IpAddrEntry<u32, String>> = (0..map.len())
        .map(|i| map.get_from_index_as_ref(i).unwrap().clone())
        .collect();

    map.cleanup();
    assert_eq!(map.len(), after_once.len());
    for (i, e) in after_once.iter().enumerate() {
        assert_eq!(map.get_from_index_as_ref(i).unwrap(), e);
    }
}

#[test]
fn dirty_map_is_refused_by_try_search() {
    let mut map: IpAddrMap<u32, String> = IpAddrMap::new();
    map.insert(entry_u32(10, 20, "a"));
    assert_eq!(map.try_search(15), Err(Error::DirtyIpAddrMap));

    // A cleaned map answers; an insert after cleanup re-dirties it.
    map.cleanup();
    assert_eq!(map.try_search(15), Ok(&String::from("a")));
    map.insert(entry_u32(30, 40, "b"));
    assert_eq!(map.try_search(15), Err(Error::DirtyIpAddrMap));
    assert_eq!(map.search(35), Ok(&String::from("b")));
}

#[test]
fn finalized_order_is_sorted() {
    let mut map: IpAddrMap<u32, String> = IpAddrMap::new();
    map.insert(entry_u32(50, 60, "d"));
    map.insert(entry_u32(10, 20, "a"));
    map.insert(entry_u32(30, 35, "b"));
    map.insert(entry_u32(30, 40, "c"));
    map.cleanup();

    for i in 0..map.len() - 1 {
        let a = map.get_from_index_as_ref(i).unwrap();
        let b = map.get_from_index_as_ref(i + 1).unwrap();
        assert!((*a.start(), *a.end()) <= (*b.start(), *b.end()));
    }
}

#[test]
fn empty_map_lookup() {
    let mut map: IpAddrMap<u32, String> = IpAddrMap::new();
    assert!(map.is_empty());
    assert_eq!(map.len(), 0);
    assert_eq!(map.search(1234), Err(Error::NoValueFound));
    assert_eq!(map.try_search(1234), Err(Error::NoValueFound));
}

#[test]
fn map_with_capacity_behaves_like_new() {
    let mut map: IpAddrMap<u32, String> = IpAddrMap::new_with_capacity(16);
    assert!(map.is_empty());
    map.insert(entry_u32(1, 2, "a"));
    assert!(!map.is_empty());
    assert_eq!(map.len(), 1);
    assert_eq!(map.search(1), Ok(&String::from("a")));
}

#[test]
fn index_access_out_of_bounds() {
    let mut map: IpAddrMap<u32, String> = IpAddrMap::new();
    map.insert(entry_u32(1, 2, "a"));
    map.cleanup();
    assert!(map.get_from_index_as_ref(0).is_some());
    assert!(map.get_from_index_as_ref(1).is_none());
}

#[test]
fn into_vec_yields_sorted_entries() {
    let mut map: IpAddrMap<u32, String> = IpAddrMap::new();
    map.insert(entry_u32(30, 40, "b"));
    map.insert(entry_u32(10, 20, "a"));
    map.cleanup();
    let v = map.into_vec();
    assert_eq!(v.len(), 2);
    assert_eq!(*v[0].start(), 10);
    assert_eq!(*v[1].start(), 30);
}

#[test]
fn default_map_is_empty() {
    let map: IpAddrMap<u32, String> = IpAddrMap::default();
    assert!(map.is_empty());
}

#[test]
fn extreme_key_values() {
    let mut map: IpAddrMap<u32, String> = IpAddrMap::new();
    map.insert(entry_u32(0, 0, "low"));
    map.insert(entry_u32(u32::MAX - 1, u32::MAX, "high"));
    assert_eq!(map.search(0), Ok(&String::from("low")));
    assert_eq!(map.search(u32::MAX), Ok(&String::from("high")));
    assert_eq!(map.search(1), Err(Error::NoValueFound));

    let mut wide: IpAddrMap<u128, String> = IpAddrMap::new();
    wide.insert(IpAddrEntry::new(0u128, u128::MAX, String::from("all")).unwrap());
    assert_eq!(wide.search(u128::MAX / 2), Ok(&String::from("all")));
}

#[test]
fn overlapping_ranges_return_a_containing_value() {
    // Overlap is never checked for; the contract then promises only that
    // a successful lookup returns the value of some containing entry.
    let mut map: IpAddrMap<u32, String> = IpAddrMap::new();
    map.insert(entry_u32(10, 30, "a"));
    map.insert(entry_u32(20, 40, "b"));
    let got = map.search(25).unwrap().clone();
    assert!(got == "a" || got == "b");
    // A key inside exactly one of the ranges is found there.
    assert_eq!(map.search(15), Ok(&String::from("a")));
    assert_eq!(map.search(35), Ok(&String::from("b")));
}

#[test]
fn integer_valued_map() {
    // Values only need equality; a plain integer (for example an index
    // into a country table) works as well as a string.
    let mut map: IpAddrMap<u32, u64> = IpAddrMap::new();
    map.insert(IpAddrEntry::new(10u32, 20u32, 7u64).unwrap());
    map.insert(IpAddrEntry::new(30u32, 40u32, 9u64).unwrap());
    map.insert(IpAddrEntry::new(10u32, 20u32, 7u64).unwrap());
    map.cleanup();
    assert_eq!(map.len(), 2);
    assert_eq!(map.try_search(12), Ok(&7));
    assert_eq!(map.try_search(33), Ok(&9));
    assert_eq!(map.try_search(25), Err(Error::NoValueFound));
}
