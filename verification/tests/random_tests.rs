use microservice::json::parse_rng_request;
use microservice::number::Dec;
use microservice::sampler::{sample, RngRequest, Sample, SamplePlan};
use microservice::service::{normal_response, random_response, RandomStep};

fn done_body(step: RandomStep) -> (u16, Vec<u8>) {
    match step {
        RandomStep::Done(resp) => (resp.status, resp.body),
        RandomStep::NeedNormal { .. } => panic!("expected a finished response"),
    }
}

#[test]
fn uniform_single_value_range_is_deterministic() {
    let body =
        b"{\"distribution\":\"uniform\",\"parameters\":{\"range\":{\"start\":10,\"end\":11}}}";
    for _ in 0..50 {
        let (status, out) = done_body(random_response(body));
        assert_eq!(status, 200);
        assert_eq!(out, b"{\"value\":10}".to_vec());
    }
}

#[test]
fn uniform_range_draws_stay_inside_the_half_open_range() {
    let body =
        b"{\"distribution\":\"uniform\",\"parameters\":{\"range\":{\"start\":10,\"end\":20}}}";
    for _ in 0..1000 {
        let (status, out) = done_body(random_response(body));
        assert_eq!(status, 200);
        let text = String::from_utf8(out).unwrap();
        let inner = text
            .strip_prefix("{\"value\":")
            .and_then(|t| t.strip_suffix("}"))
            .unwrap();
        let v: i64 = inner.parse().unwrap();
        assert!((10..20).contains(&v), "draw {} left [10,20)", v);
    }
}

#[test]
fn uniform_empty_range_is_rejected() {
    let body =
        b"{\"distribution\":\"uniform\",\"parameters\":{\"range\":{\"start\":10,\"end\":10}}}";
    let (status, out) = done_body(random_response(body));
    assert_eq!(status, 422);
    assert!(out.is_empty());
    let body2 =
        b"{\"distribution\":\"uniform\",\"parameters\":{\"range\":{\"start\":5,\"end\":-5}}}";
    assert_eq!(done_body(random_response(body2)).0, 422);
}

#[test]
fn bernoulli_zero_always_draws_zero() {
    let body = b"{\"distribution\":\"bernoulli\",\"parameters\":{\"p\":0}}";
    for _ in 0..100 {
        let (status, out) = done_body(random_response(body));
        assert_eq!(status, 200);
        assert_eq!(out, b"{\"value\":0.0}".to_vec());
    }
}

#[test]
fn bernoulli_one_always_draws_one() {
    let body = b"{\"distribution\":\"bernoulli\",\"parameters\":{\"p\":1.0}}";
    for _ in 0..100 {
        let (status, out) = done_body(random_response(body));
        assert_eq!(status, 200);
        assert_eq!(out, b"{\"value\":1.0}".to_vec());
    }
}

#[test]
fn bernoulli_half_draws_both_values() {
    let body = b"{\"distribution\":\"bernoulli\",\"parameters\":{\"p\":0.5}}";
    let mut seen_zero = false;
    let mut seen_one = false;
    for _ in 0..1000 {
        let (status, out) = done_body(random_response(body));
        assert_eq!(status, 200);
        match out.as_slice() {
            b"{\"value\":0.0}" => seen_zero = true,
            b"{\"value\":1.0}" => seen_one = true,
            other => panic!("unexpected body {:?}", other),
        }
    }
    assert!(seen_zero && seen_one);
}

#[test]
fn bernoulli_out_of_domain_is_rejected() {
    for p in ["-0.1", "1.5", "2", "1.0000001"] {
        let body = format!("{{\"distribution\":\"bernoulli\",\"parameters\":{{\"p\":{}}}}}", p);
        let (status, _) = done_body(random_response(body.as_bytes()));
        assert_eq!(status, 422, "p = {}", p);
    }
}

#[test]
fn normal_negative_std_dev_is_rejected() {
    let body = b"{\"distribution\":\"normal\",\"parameters\":{\"mean\":0,\"std_dev\":-1}}";
    let (status, out) = done_body(random_response(body));
    assert_eq!(status, 422);
    assert!(out.is_empty());
    let zero = b"{\"distribution\":\"normal\",\"parameters\":{\"mean\":0,\"std_dev\":0}}";
    assert_eq!(done_body(random_response(zero)).0, 422);
}

#[test]
fn normal_valid_parameters_hand_back_the_descriptor() {
    let body = b"{\"distribution\":\"normal\",\"parameters\":{\"mean\":-2.5,\"std_dev\":1.5}}";
    match random_response(body) {
        RandomStep::NeedNormal { mean, std_dev } => {
            assert!(mean.neg);
            assert_eq!(mean.mant, 25);
            assert_eq!(mean.exp, -1);
            assert!(!std_dev.neg);
            assert_eq!(std_dev.mant, 15);
            assert_eq!(std_dev.exp, -1);
        },
        RandomStep::Done(_) => panic!("expected a pending draw"),
    }
}

#[test]
fn malformed_bodies_are_rejected() {
    let cases: [&[u8]; 8] = [
        b"",
        b"not json",
        b"{}",
        b"{\"distribution\":\"uniform\"}",
        b"{\"distribution\":\"poisson\",\"parameters\":{\"p\":1}}",
        b"{\"distribution\":\"bernoulli\",\"parameters\":{\"p\":1}} trailing",
        b"{\"distribution\":\"bernoulli\",\"parameters\":{\"q\":1}}",
        b"{\"distribution\":\"uniform\",\"parameters\":{\"range\":{\"start\":1.5,\"end\":2}}}",
    ];
    for body in cases {
        let (status, out) = done_body(random_response(body));
        assert_eq!(status, 422, "body {:?}", String::from_utf8_lossy(body));
        assert!(out.is_empty());
    }
}

#[test]
fn members_may_come_in_either_order() {
    let body =
        b"{ \"parameters\" : {\"range\":{\"end\":11,\"start\":10}}, \"distribution\" : \"uniform\" }";
    let (status, out) = done_body(random_response(body));
    assert_eq!(status, 200);
    assert_eq!(out, b"{\"value\":10}".to_vec());
}

#[test]
fn parser_reads_descriptors_exactly() {
    let body = b"{\"distribution\":\"uniform\",\"parameters\":{\"range\":{\"start\":-3,\"end\":7}}}";
    match parse_rng_request(body) {
        Some(RngRequest::Uniform { start, end }) => {
            assert_eq!(start, -3);
            assert_eq!(end, 7);
        },
        _ => panic!("expected a uniform descriptor"),
    }
    let body2 = b" { \"distribution\" : \"bernoulli\" , \"parameters\" : { \"p\" : 2.5e-1 } } ";
    match parse_rng_request(body2) {
        Some(RngRequest::Bernoulli { p }) => {
            assert!(!p.neg);
            assert_eq!(p.mant, 25);
            assert_eq!(p.exp, -2);
        },
        _ => panic!("expected a Bernoulli descriptor"),
    }
    assert!(parse_rng_request(b"{\"distribution\":\"uniform\",\"parameters\":{\"range\":{\"start\":1,\"end\":2}},\"extra\":1}").is_none());
}

#[test]
fn sampler_rejects_invalid_descriptors_directly() {
    let bad_p = RngRequest::Bernoulli { p: Dec { neg: true, mant: 1, exp: 0 } };
    assert!(matches!(sample(&bad_p), SamplePlan::Invalid));
    let bad_range = RngRequest::Uniform { start: 3, end: 3 };
    assert!(matches!(sample(&bad_range), SamplePlan::Invalid));
    let bad_sd = RngRequest::Normal {
        mean: Dec { neg: false, mant: 0, exp: 0 },
        std_dev: Dec { neg: true, mant: 1, exp: 0 },
    };
    assert!(matches!(sample(&bad_sd), SamplePlan::Invalid));
    let ok = RngRequest::Uniform { start: 3, end: 4 };
    assert!(matches!(sample(&ok), SamplePlan::Drawn(Sample::Int(3))));
}

#[test]
fn normal_response_frames_the_drawn_text() {
    let resp = normal_response(Some(String::from("1.25")));
    assert_eq!(resp.status, 200);
    assert_eq!(resp.body, b"{\"value\":1.25}".to_vec());
    let failed = normal_response(None);
    assert_eq!(failed.status, 422);
    assert!(failed.body.is_empty());
}
