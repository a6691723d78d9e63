use infr::ffn::{record_swiglu, FfnBuffers, GateUp};
use infr::gguf::{Gguf, Metadata, TensorInfo};
use infr::tensor::DType;
use infr::weights::{
    native_dense_supported, pad_to_u32_align, rec_linear, rec_linear_add, tensor_resident_bytes,
    upload_wt, upload_wt_bytes, weight_footprint, Command, WeightFootprint, Wt, WtUpload,
};

fn t(name: &str, dtype: DType, shape: Vec<usize>, nbytes: usize) -> TensorInfo {
    TensorInfo { name: name.into(), dtype, shape, nbytes }
}

#[test]
fn totals() {
    let f = WeightFootprint { dense: 100, expert: 40 };
    assert_eq!(f.total(), 140);
    assert_eq!(f.streaming_total(3, 8), 124);
}

#[test]
fn room_for_one_tensor() {
    assert_eq!(tensor_resident_bytes(DType::Q4K, 256, 144), 144);
    assert_eq!(tensor_resident_bytes(DType::Q6K, 256, 210), 212);
    assert_eq!(tensor_resident_bytes(DType::F32, 256, 1024), 512);
    assert_eq!(tensor_resident_bytes(DType::Bf16, 3, 6), 6);
}

#[test]
fn counted_room_is_what_is_sent() {
    for n in 0..9usize {
        let bytes = vec![7u8; n];
        match upload_wt_bytes(DType::Iq3S, &bytes) {
            WtUpload::Native { padded, dtype } => {
                assert_eq!(padded.len() as u64, tensor_resident_bytes(dtype, 1, n));
                assert_eq!(&padded[..n], &bytes[..]);
                assert!(padded[n..].iter().all(|b| *b == 0));
            }
            _ => panic!("blocks are sent as they are"),
        }
    }
    assert!(matches!(
        upload_wt_bytes(DType::F16, &[1, 2]),
        WtUpload::F16 { dtype: DType::F16 }
    ));
}

#[test]
fn padding() {
    assert_eq!(pad_to_u32_align(&[]), Vec::<u8>::new());
    assert_eq!(pad_to_u32_align(&[1, 2, 3, 4, 5]), vec![1, 2, 3, 4, 5, 0, 0, 0]);
    assert_eq!(pad_to_u32_align(&[1, 2, 3, 4]), vec![1, 2, 3, 4]);
}

#[test]
fn quantized_formats_stay_blocks() {
    for d in [DType::Q4_0, DType::Q8_0, DType::Q2K, DType::Iq4Xs, DType::Tq1_0, DType::Mxfp4] {
        assert!(native_dense_supported(d));
    }
    for d in [DType::F32, DType::F16, DType::Bf16] {
        assert!(!native_dense_supported(d));
    }
}

#[test]
fn footprint_of_a_mixture_model() {
    let dir = vec![
        t("token_embd.weight", DType::Q4K, vec![256, 10], 1440),
        t("blk.0.attn_norm.weight", DType::F32, vec![256], 1024),
        t("blk.0.ffn_gate_exps.weight", DType::Q6K, vec![256, 1, 3], 630),
        t("output.weight", DType::Q8_0, vec![32, 2], 68),
    ];
    let f = weight_footprint(&Gguf::new(Metadata::new(), dir));
    assert_eq!(f, WeightFootprint { dense: 512 + 68, expert: 632 });
}

#[test]
fn footprint_with_a_tied_head() {
    let dir = vec![
        t("token_embd.weight", DType::Q4K, vec![256, 10], 1440),
        t("output_norm.weight", DType::F32, vec![256], 1024),
    ];
    let f = weight_footprint(&Gguf::new(Metadata::new(), dir));
    assert_eq!(f, WeightFootprint { dense: 256 * 10 * 2 + 512, expert: 0 });
}

#[test]
fn weights_are_found_by_name() {
    let dir = vec![t("a", DType::F32, vec![1], 4), t("b", DType::Q4K, vec![1], 4)];
    let g = Gguf::new(Metadata::new(), dir);
    assert_eq!(upload_wt(&g, "b"), Some((1, DType::Q4K)));
    assert_eq!(upload_wt(&g, "c"), None);
}

#[test]
fn projections_follow_the_storage() {
    let mut rec: Vec<Command<u8>> = Vec::new();
    rec_linear(&mut rec, Wt::F16(1), 2, 3, 4, 5, 6);
    rec_linear(&mut rec, Wt::Native { buf: 1, dtype: DType::Q4K }, 2, 3, 4, 5, 6);
    rec_linear_add(&mut rec, Wt::F16(1), 2, 9, 3, 4, 5, 6);
    rec_linear_add(&mut rec, Wt::Native { buf: 1, dtype: DType::Q4K }, 2, 9, 3, 4, 5, 6);
    assert_eq!(
        rec,
        vec![
            Command::Linear { w: 1, x: 2, y: 3, rows: 4, in_f: 5, out_f: 6 },
            Command::LinearNative {
                dtype: DType::Q4K,
                w: 1,
                x: 2,
                y: 3,
                rows: 4,
                in_f: 5,
                out_f: 6
            },
            Command::LinearAdd { w: 1, x: 2, residual: 9, y: 3, rows: 4, in_f: 5, out_f: 6 },
            Command::LinearAddNative {
                dtype: DType::Q4K,
                w: 1,
                x: 2,
                residual: 9,
                y: 3,
                rows: 4,
                in_f: 5,
                out_f: 6
            },
        ]
    );
}

#[test]
fn feed_forward_recordings() {
    let bufs = FfnBuffers { xn: 'x', gu: 'b', g: 'g', u: 'u', act: 'a', out: 'o' };
    let mut rec = Vec::new();
    record_swiglu(&mut rec, bufs, GateUp::Fused(Wt::F16('w')), Wt::F16('d'), Some('r'), 2, 8, 16);
    assert_eq!(
        rec,
        vec![
            Command::Linear { w: 'w', x: 'x', y: 'b', rows: 2, in_f: 8, out_f: 32 },
            Command::SiluMulFused { gate_up: 'b', act: 'a', rows: 2, n_ff: 16 },
            Command::LinearAdd {
                w: 'd',
                x: 'a',
                residual: 'r',
                y: 'o',
                rows: 2,
                in_f: 16,
                out_f: 8
            },
        ]
    );
    let mut rec = Vec::new();
    let split = GateUp::Split { gate: Wt::F16('p'), up: Wt::F16('q') };
    record_swiglu(&mut rec, bufs, split, Wt::F16('d'), None, 2, 8, 16);
    assert_eq!(
        rec,
        vec![
            Command::Linear { w: 'p', x: 'x', y: 'g', rows: 2, in_f: 8, out_f: 16 },
            Command::Linear { w: 'q', x: 'x', y: 'u', rows: 2, in_f: 8, out_f: 16 },
            Command::SiluMul { gate: 'g', up: 'u', act: 'a', n: 32 },
            Command::Linear { w: 'd', x: 'a', y: 'o', rows: 2, in_f: 16, out_f: 8 },
        ]
    );
}

#[test]
fn footprint_in_any_order() {
    let dir = || {
        vec![
            t("token_embd.weight", DType::Q4K, vec![256, 10], 1440),
            t("output_norm.weight", DType::F32, vec![256], 1024),
            t("blk.0.ffn_gate_exps.weight", DType::Q6K, vec![256, 1, 3], 630),
            t("output.weight", DType::Q8_0, vec![32, 2], 68),
        ]
    };
    let want = WeightFootprint { dense: 512 + 68, expert: 632 };
    for k in 0..4 {
        let mut d = dir();
        d.rotate_left(k);
        assert_eq!(weight_footprint(&Gguf::new(Metadata::new(), d)), want);
        let mut d = dir();
        d.rotate_left(k);
        d.reverse();
        assert_eq!(weight_footprint(&Gguf::new(Metadata::new(), d)), want);
    }
    // Dense and expert weights together count every tensor but the embedding once.
    assert_eq!(want.total(), 512 + 68 + 632);
}

#[test]
fn only_the_sizes_that_count_have_to_fit() {
    // The elements of blocks are not counted, nor are the bytes of floats.
    let many = vec![1 << 62, 2];
    let dir = vec![
        t("a", DType::Q4K, many.clone(), 144),
        t("b", DType::F32, vec![3], usize::MAX),
        t("token_embd.weight", DType::F32, many, usize::MAX),
        t("output.weight", DType::Q8_0, vec![32], 34),
    ];
    let f = weight_footprint(&Gguf::new(Metadata::new(), dir));
    assert_eq!(f, WeightFootprint { dense: 144 + 6 + 36, expert: 0 });
}
