use onpair::Column;
use onpair::CompactDictionary;
use onpair::Config;
use onpair::Dictionary;
use onpair::DictionaryView;
use onpair::OwnedDictionaryStorage;
use onpair::Parser;
use onpair::Rows;
use vortex_core::lpm::bucket::LongBucket;
use vortex_core::lpm::bucket::LongEntry;
use vortex_core::lpm::fast_lpm::parse_rows;
use vortex_core::lpm::fast_lpm::FastLpm;
use vortex_core::lpm::window::load_le_u64;
use vortex_core::lpm::window::load_window;
use vortex_core::lpm::window::mask_u64;
use vortex_core::lpm::window::MAX_SUFFIX;
use vortex_core::lpm::window::MAX_TOKEN;
use vortex_core::lpm::window::PREFIX_LEN;

struct SliceRows<'a> {
    rows: &'a [&'a [u8]],
    total: usize,
}

impl Rows for SliceRows<'_> {
    fn num_rows(&self) -> usize {
        self.rows.len()
    }

    fn total_bytes(&self) -> usize {
        self.total
    }

    fn row(&self, i: usize) -> &[u8] {
        self.rows[i]
    }
}

/// Every corpus must tokenize byte-identically to the crate's own parse.
fn assert_same_tokenization(strings: &[&[u8]]) {
    let total: usize = strings.iter().map(|s| s.len()).sum();
    let rows = SliceRows { rows: strings, total };
    let parser = Parser::train_rows(&rows, Config::default());
    let reference: Column<u64> = parser.parse_rows(&rows);
    let lpm = FastLpm::from_dictionary(reference.dict.as_view());
    let (codes, offsets) = parse_rows(&lpm, strings);
    assert_eq!(codes, reference.codes);
    assert_eq!(offsets, reference.row_offsets);

    let dict = reference.dict.as_view();
    for (i, row) in strings.iter().enumerate() {
        let mut decoded: Vec<u8> = Vec::new();
        for code in &codes[offsets[i] as usize..offsets[i + 1] as usize] {
            decoded.extend_from_slice(dict.token(*code));
        }
        assert_eq!(decoded, *row);
    }
}

#[test]
fn repeated_text() {
    let rows: Vec<&[u8]> = (0..5000)
        .map(|i| {
            [
                b"the quick brown fox jumps over the lazy dog"[..].as_ref(),
                b"lorem ipsum dolor sit amet, consectetur adipiscing".as_ref(),
                b"customer complains about package delivery issues".as_ref(),
            ][i % 3]
        })
        .collect();
    assert_same_tokenization(&rows);
}

#[test]
fn random_ascii() {
    let mut seed = 0x9E3779B9u64;
    let mut next = || {
        seed ^= seed << 13;
        seed ^= seed >> 7;
        seed ^= seed << 17;
        seed
    };
    let storage: Vec<Vec<u8>> = (0..3000)
        .map(|_| {
            let len = (next() % 40) as usize;
            (0..len).map(|_| b'a' + (next() % 26) as u8).collect()
        })
        .collect();
    let rows: Vec<&[u8]> = storage.iter().map(|v| v.as_slice()).collect();
    assert_same_tokenization(&rows);
}

#[test]
fn short_and_binary_rows() {
    let storage: Vec<Vec<u8>> = (0u32..2000)
        .map(|i| vec![(i % 251) as u8, (i % 7) as u8])
        .chain((0..256u32).map(|b| vec![b as u8]))
        .collect();
    let rows: Vec<&[u8]> = storage.iter().map(|v| v.as_slice()).collect();
    assert_same_tokenization(&rows);
}

#[test]
fn empty_and_homogeneous() {
    let storage: Vec<Vec<u8>> = std::iter::repeat_n(Vec::new(), 10)
        .chain(std::iter::repeat_n(vec![b'x'; 3], 50))
        .chain(std::iter::repeat_n(vec![b'y'; 16], 50))
        .collect();
    let rows: Vec<&[u8]> = storage.iter().map(|v| v.as_slice()).collect();
    assert_same_tokenization(&rows);
}

#[test]
fn long_tokens_present() {
    // Shared 16+ byte prefixes force the long-bucket path.
    let storage: Vec<Vec<u8>> = (0..2000u32)
        .map(|i| {
            let mut v = b"abcdefghijklmnop-".to_vec();
            v.extend_from_slice(&(i % 97).to_string().into_bytes());
            v
        })
        .collect();
    let rows: Vec<&[u8]> = storage.iter().map(|v| v.as_slice()).collect();
    assert_same_tokenization(&rows);
}

fn dictionary(tokens: &[Vec<u8>]) -> CompactDictionary {
    let mut bytes: Vec<u8> = Vec::new();
    let mut offsets: Vec<u32> = vec![0];
    for token in tokens {
        bytes.extend_from_slice(token);
        offsets.push(bytes.len() as u32);
    }
    bytes.extend_from_slice(&[0u8; 16]);
    CompactDictionary::validate_safety(OwnedDictionaryStorage::new(bytes, offsets)).unwrap()
}

fn singles() -> Vec<Vec<u8>> {
    (0..=255u8).map(|b| vec![b]).collect()
}

#[test]
fn longest_token_wins() {
    let mut tokens = singles();
    for t in ["ab", "abcd", "abcdefgh", "abcdefghi", "abcdefghij", "abcdefghijklmnop"] {
        tokens.push(t.as_bytes().to_vec());
    }
    let dict = dictionary(&tokens);
    let lpm = FastLpm::try_from_dictionary(dict.as_view()).unwrap();
    assert_eq!(lpm.find_longest_match(b"a"), (97, 1));
    assert_eq!(lpm.find_longest_match(b"abc"), (256, 2));
    assert_eq!(lpm.find_longest_match(b"abcdefg"), (257, 4));
    assert_eq!(lpm.find_longest_match(b"abcdefghX"), (258, 8));
    assert_eq!(lpm.find_longest_match(b"abcdefghi"), (259, 9));
    assert_eq!(lpm.find_longest_match(b"abcdefghijk"), (260, 10));
    assert_eq!(lpm.find_longest_match(b"abcdefghijklmnopqrst"), (261, 16));
    assert_eq!(lpm.find_longest_match(&[0, 0]), (0, 1));
}

#[test]
fn many_long_tokens_with_one_prefix() {
    let mut tokens = singles();
    for i in 0..100u8 {
        let mut t = b"PREFIX__".to_vec();
        t.extend_from_slice(&vec![i; 1 + (i % 8) as usize]);
        tokens.push(t);
    }
    let dict = dictionary(&tokens);
    let lpm = FastLpm::try_from_dictionary(dict.as_view()).unwrap();
    for i in 0..100u8 {
        let token = &tokens[256 + i as usize];
        let mut data = token.clone();
        data.push(255);
        assert_eq!(lpm.find_longest_match(&data), (256 + i as u16, token.len()));
        assert_eq!(lpm.find_longest_match(&data[..token.len()]), (256 + i as u16, token.len()));
        assert_eq!(lpm.find_longest_match(&data[..token.len() - 1]), (b'P' as u16, 1));
    }
}

#[test]
fn incomplete_dictionaries_are_refused() {
    let mut missing = singles();
    missing[65] = b"AA".to_vec();
    assert!(FastLpm::try_from_dictionary(dictionary(&missing).as_view()).is_none());
    let mut twice = singles();
    twice.push(b"A".to_vec());
    assert!(FastLpm::try_from_dictionary(dictionary(&twice).as_view()).is_none());
    assert!(FastLpm::try_from_dictionary(dictionary(&singles()).as_view()).is_some());
}

#[test]
fn token_sizes_are_those_of_the_dictionary() {
    assert_eq!(MAX_TOKEN, onpair::MAX_TOKEN_SIZE);
    assert_eq!(MAX_SUFFIX, MAX_TOKEN - PREFIX_LEN);
}

#[test]
fn windows() {
    let data: Vec<u8> = (1..=20).collect();
    assert_eq!(load_window(&data[..1]), (0x01, 0));
    assert_eq!(load_window(&data[..3]), (0x03_0201, 0));
    assert_eq!(load_window(&data[..8]), (0x0807_0605_0403_0201, 0));
    assert_eq!(load_window(&data[..11]), (0x0807_0605_0403_0201, 0x0b_0a09));
    assert_eq!(
        load_window(&data),
        (0x0807_0605_0403_0201, 0x100f_0e0d_0c0b_0a09)
    );
    assert_eq!(load_le_u64(&data, 2), 0x0201);
    assert_eq!(load_le_u64(&data, 30), 0x0807_0605_0403_0201);
    assert_eq!(load_le_u64(&data[..3], 8), 0x03_0201);
    assert_eq!(mask_u64(0), 0);
    assert_eq!(mask_u64(3), 0xff_ffff);
    assert_eq!(mask_u64(8), u64::MAX);
}

#[test]
fn buckets_find_the_longest_suffix() {
    let few = vec![
        LongEntry { suffix: 0x0201, slen: 2, token: 7 },
        LongEntry { suffix: 0x01, slen: 1, token: 8 },
    ];
    let bucket = LongBucket::build(few);
    assert!(matches!(bucket, LongBucket::Linear(_)));
    assert_eq!(bucket.find(0x03_0201, 3), Some((7, 2)));
    assert_eq!(bucket.find(0x03_0201, 1), Some((8, 1)));
    assert_eq!(bucket.find(0x0301, 2), Some((8, 1)));
    assert_eq!(bucket.find(0x05, 1), None);

    let many: Vec<LongEntry> = (0..60u64)
        .map(|i| LongEntry { suffix: i, slen: 1 + (i % 3) as u8, token: i as u16 })
        .collect();
    let bucket = LongBucket::build(many);
    assert!(matches!(bucket, LongBucket::Grouped { .. }));
    assert_eq!(bucket.find(3, 8), Some((3, 1)));
    assert_eq!(bucket.find(4, 8), Some((4, 2)));
    assert_eq!(bucket.find(4, 1), None);
    assert_eq!(bucket.find(4, 100), Some((4, 2)));
    assert_eq!(bucket.find(200, 8), None);
}
