use vortex_core::dtype::DType;
use vortex_core::dtype::Nullability;
use vortex_core::stats::Scalar;
use vortex_core::stats::ScalarValue;
use vortex_core::varbin::make_scalar;
use vortex_core::varbin::prefix_key;
use vortex_core::varbin::varbin_compute_min_max;
use vortex_core::varbin::view_extrema;
use vortex_core::varbin::BinaryView;
use vortex_core::varbin::MinMaxResult;
use vortex_core::varbin::MAX_INLINED_SIZE;

fn make_views(values: &[&[u8]]) -> (Vec<BinaryView>, Vec<u8>) {
    let mut data = Vec::new();
    let views = values
        .iter()
        .map(|value| {
            let offset = u32::try_from(data.len()).unwrap();
            if value.len() > MAX_INLINED_SIZE {
                data.extend_from_slice(value);
            }
            BinaryView::make_view(value, 0, offset)
        })
        .collect::<Vec<_>>();
    (views, data)
}

fn extrema(values: &[&[u8]]) -> Option<(Vec<u8>, Vec<u8>)> {
    let (views, data) = make_views(values);
    let buffers = [data.as_slice()];
    let views: Vec<&BinaryView> = views.iter().collect();
    view_extrema(&views, &buffers)
        .map(|(min, max)| (min.bytes(&buffers).to_vec(), max.bytes(&buffers).to_vec()))
}

fn check(values: &[&str], expected: Option<(&str, &str)>) {
    let bytes = values.iter().map(|v| v.as_bytes()).collect::<Vec<_>>();
    let expected = expected.map(|(min, max)| (min.as_bytes().to_vec(), max.as_bytes().to_vec()));
    assert_eq!(extrema(&bytes), expected);
    let naive = bytes
        .iter()
        .min()
        .zip(bytes.iter().max())
        .map(|(min, max)| (min.to_vec(), max.to_vec()));
    assert_eq!(extrema(&bytes), naive);
}

#[test]
fn extrema_match_lexicographic_order() {
    check(&[], None);
    check(&["only"], Some(("only", "only")));
    check(&["a\0", "a", "a\0\0"], Some(("a", "a\0\0")));
    check(&["b", "", "a"], Some(("", "b")));
    check(
        &["\u{ff}\u{1}", "\u{7f}", "\u{80}"],
        Some(("\u{7f}", "\u{ff}\u{1}")),
    );
    check(
        &["DELIVER IN PERSON", "DELIVER IN PERSOM", "DELIVER IN PERSONS", "DELI"],
        Some(("DELI", "DELIVER IN PERSONS")),
    );
    check(
        &["MAIL", "AIR", "MAIL", "AIR", "TRUCK", "TRUCK"],
        Some(("AIR", "TRUCK")),
    );
}

#[test]
fn views_hold_their_values() {
    let values: [&[u8]; 5] = [b"", b"abc", b"twelve bytes", b"thirteen byte", b"a much longer value"];
    let (views, data) = make_views(&values);
    let buffers = [data.as_slice()];
    for (view, value) in views.iter().zip(values) {
        assert_eq!(view.bytes(&buffers), value);
    }
}

#[test]
fn keys_are_the_first_four_bytes() {
    let (views, _) = make_views(&[b"", b"a", b"abcdef", b"a much longer value"]);
    assert_eq!(prefix_key(&views[0]), 0);
    assert_eq!(prefix_key(&views[1]), 0x6100_0000);
    assert_eq!(prefix_key(&views[2]), 0x6162_6364);
    assert_eq!(prefix_key(&views[3]), 0x6120_6d75);
}

fn utf8_scalar(text: &str) -> Scalar {
    Scalar {
        dtype: DType::Utf8(Nullability::NonNullable),
        value: ScalarValue::Utf8(text.to_string()),
    }
}

#[test]
fn null_rows_do_not_count() {
    let (views, data) = make_views(&[b"a", b"m", b"z", b"q"]);
    let buffers = [data.as_slice()];
    let valid = [false, true, false, true];
    let utf8 = DType::Utf8(Nullability::Nullable);
    assert_eq!(
        varbin_compute_min_max(&views, &valid, &buffers, &utf8),
        Some(MinMaxResult {
            min: utf8_scalar("m"),
            max: utf8_scalar("q"),
        })
    );
    assert_eq!(varbin_compute_min_max(&views, &[false; 4], &buffers, &utf8), None);
}

#[test]
fn scalars_have_the_array_type() {
    assert_eq!(
        make_scalar(&DType::Binary(Nullability::Nullable), &[0xff, 0]),
        Scalar {
            dtype: DType::Binary(Nullability::NonNullable),
            value: ScalarValue::Binary(vec![0xff, 0]),
        }
    );
    assert_eq!(
        make_scalar(&DType::Utf8(Nullability::Nullable), "h\u{e9}".as_bytes()),
        utf8_scalar("h\u{e9}")
    );
}
