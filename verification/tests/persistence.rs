use spikenet::codec::{dequantize, quantize, QUANT_TOL};
use spikenet::fixed::SCALE;
use spikenet::network::Network;
use spikenet::IMAGE_SIZE;

#[test]
fn quantize_exact_values() {
    assert_eq!(quantize(0), 0);
    assert_eq!(quantize(SCALE), 255);
    assert_eq!(quantize(SCALE / 2), 128);
    assert_eq!(quantize(2 * SCALE), 255);
    assert_eq!(dequantize(0), 0);
    assert_eq!(dequantize(255), SCALE);
    assert_eq!(dequantize(128), 501_960_784);
}

#[test]
fn round_trip_stays_within_tolerance() {
    let samples = [0i64, 1, 3_921_568, 250_000_000, 499_999_999, 500_000_000,
        987_654_321, SCALE - 1, SCALE];
    for w in samples {
        let back = dequantize(quantize(w));
        assert!((back - w).abs() <= QUANT_TOL, "{w} came back as {back}");
    }
}

#[test]
fn export_import_reproduces_network() {
    // A freshly built network's weights, exported through the 8-bit
    // quantizer and imported again, come back equal within quantization
    // precision.
    let net = Network::new(4, 11);
    let original = net.get_weights();
    let mut pixels: Vec<Vec<u8>> = Vec::new();
    for row in &original {
        pixels.push(row.iter().map(|&w| quantize(w)).collect());
    }
    let restored_w: Vec<Vec<i64>> =
        pixels.iter().map(|row| row.iter().map(|&p| dequantize(p)).collect()).collect();
    let restored = Network::from_weights(restored_w, 12).expect("decoded weights are in range");
    let back = restored.get_weights();
    assert_eq!(back.len(), original.len());
    for (a, b) in back.iter().zip(original.iter()) {
        assert_eq!(a.len(), b.len());
        for (&x, &y) in a.iter().zip(b.iter()) {
            assert!((x - y).abs() <= QUANT_TOL, "{y} came back as {x}");
        }
    }
}

#[test]
fn from_weights_rejects_bad_shapes() {
    assert!(Network::from_weights(vec![vec![0i64; IMAGE_SIZE - 1]], 0).is_none());
    assert!(Network::from_weights(vec![vec![SCALE + 1; IMAGE_SIZE]], 0).is_none());
    assert!(Network::from_weights(vec![vec![-1i64; IMAGE_SIZE]], 0).is_none());
    assert!(Network::from_weights(vec![vec![0i64; IMAGE_SIZE]], 0).is_some());
    assert!(Network::from_weights(Vec::new(), 0).is_some());
}
