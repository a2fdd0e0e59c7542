use ark_bn254::{Fr as F, G1Projective as G1, G2Projective as G2};
use ark_std::{test_rng, UniformRand, Zero};
use ark_std::rand::Rng;

use kzg_solvency::field::Scalar;
use kzg_solvency::group::{G1Point, G2Point};
use kzg_solvency::kzg::KZG;
use kzg_solvency::lagrange::lagrange_interpolate;
use kzg_solvency::poly::Polynomial;
use kzg_solvency::prover::{generate_witness, User};
use kzg_solvency::utils::{build_zero_polynomial, compute_evaluations_for_specific_omegas, get_omega_domain, is_pow2_size};
use kzg_solvency::KzgError;

fn sc(x: F) -> Scalar {
    Scalar { inner: x }
}

fn sc_u(n: u64) -> Scalar {
    Scalar { inner: F::from(n) }
}

fn dup(s: &Scalar) -> Scalar {
    Scalar { inner: s.inner }
}

fn err_of<T>(r: Result<T, KzgError>) -> KzgError {
    match r {
        Err(e) => e,
        Ok(_) => panic!("expected an error"),
    }
}

fn poly_from(coeffs: Vec<F>) -> Polynomial {
    Polynomial { coeffs: coeffs.into_iter().map(sc).collect() }
}

#[test]
fn test_kzg_bn254() {
    let mut rng = test_rng();
    let degree = 10;
    let polynomial = poly_from((0..degree + 1).map(|_| F::rand(&mut rng)).collect());
    let tau = sc(F::rand(&mut rng));
    let random_z = sc(F::rand(&mut rng));
    let y = polynomial.evaluate(&random_z);
    let g1 = G1Point { inner: G1::rand(&mut rng) };
    let g2 = G2Point { inner: G2::rand(&mut rng) };

    let mut kzg_bn254 = KZG::new(g1, g2, degree);

    kzg_bn254.setup(&tau);
    let commitment = kzg_bn254.commit(&polynomial).unwrap();
    let opening = kzg_bn254.open(&polynomial, &random_z, &y).unwrap();
    let verify = kzg_bn254.verify(&y, &random_z, &commitment, &opening).unwrap();
    assert!(verify);
}

#[test]
fn multi_opening() {
    let mut rng = test_rng();

    // Build our polynomial P(X) over a domain of two leaves per user.
    let n_users = 8;
    let n_leaves = n_users * 2;

    let (_p_omegas, domain_elements) = get_omega_domain(n_leaves).unwrap();

    // P(omega^i) = random * i
    let p_evaluations: Vec<Scalar> = (0..n_leaves)
        .map(|i| sc(F::rand(&mut rng) * F::from(i as u32)))
        .collect();
    let p = lagrange_interpolate(&p_evaluations);

    let g1 = G1Point { inner: G1::rand(&mut rng) };
    let g2 = G2Point { inner: G2::rand(&mut rng) };
    let mut kzg_bn254 = KZG::new(g1, g2, n_leaves - 1);
    kzg_bn254.setup(&sc(F::rand(&mut rng)));
    let commitment = kzg_bn254.commit(&p).unwrap();

    // L(X) agrees with P(X) at omega^2 and omega^3 and is 0 elsewhere.
    let l_evaluations = compute_evaluations_for_specific_omegas(vec![2, 3], &domain_elements, &p);
    let l = lagrange_interpolate(&l_evaluations);

    // Z(X) vanishes at omega^2 and omega^3.
    let points = vec![dup(&domain_elements[2]), dup(&domain_elements[3])];
    let z = build_zero_polynomial(&points).unwrap();

    let pi = kzg_bn254.multi_open(&p, &l, &points).unwrap();
    let verify = kzg_bn254.verify_multi_open(&commitment, &pi, &z, &l).unwrap();
    assert!(verify);

    let pi_wrong = G1Point { inner: pi.inner * F::from(2134) };
    let verify_wrong = kzg_bn254.verify_multi_open(&commitment, &pi_wrong, &z, &l).unwrap();
    assert!(!verify_wrong);
}

#[test]
#[allow(non_snake_case)]
fn compute_Q() {
    let mut rng = test_rng();

    let n_users = 8;
    let n_leaves = n_users * 2;
    let (_p_omegas, domain_elements) = get_omega_domain(n_leaves).unwrap();

    let p_evaluations: Vec<Scalar> = (0..n_leaves)
        .map(|i| sc(F::rand(&mut rng) * F::from(i as u32)))
        .collect();
    let p = lagrange_interpolate(&p_evaluations);

    // L(X) agrees with P(X) at omega^2 and omega^3 and is 0 elsewhere.
    let l_evaluations = compute_evaluations_for_specific_omegas(vec![2, 3], &domain_elements, &p);
    let l = lagrange_interpolate(&l_evaluations);

    // Z(X) with roots omega^2 and omega^3, as a product of two linear factors.
    let l_root_username = Polynomial {
        coeffs: vec![Scalar { inner: -domain_elements[2].inner }, Scalar { inner: F::from(1) }],
    };
    let l_root_balance = Polynomial {
        coeffs: vec![Scalar { inner: -domain_elements[3].inner }, Scalar { inner: F::from(1) }],
    };
    let z = l_root_username.mul(&l_root_balance);

    // Q(X) = (P(X) - L(X)) / Z(X), an exact division.
    let (_q, rem) = p.sub(&l).div_rem(&z);
    assert!(rem.is_zero());

    // L(X) and Z(X) do not have the same coefficients.
    let l_coeffs: Vec<F> = l.coeffs.iter().map(|s| s.inner).collect();
    let z_coeffs: Vec<F> = z.coeffs.iter().map(|s| s.inner).collect();
    assert_ne!(l_coeffs, z_coeffs);

    // L(X) and P(X) evaluate to the same values at omega^2 and omega^3.
    assert_eq!(
        l.evaluate(&domain_elements[2]).inner,
        p.evaluate(&domain_elements[2]).inner
    );
    assert_eq!(
        l.evaluate(&domain_elements[3]).inner,
        p.evaluate(&domain_elements[3]).inner
    );

    // Z(X) has roots at omega^2 and omega^3.
    assert_eq!(z.evaluate(&domain_elements[2]).inner, F::zero());
    assert_eq!(z.evaluate(&domain_elements[3]).inner, F::zero());
}

#[test]
fn test_witness_gen() {
    let mut rng = test_rng();

    let balances = vec![20, 50, 10, 164, 870, 6, 270, 90];

    let users: Vec<User> = balances
        .iter()
        .take(8)
        .map(|&balance| User {
            username: rng.gen_range(0..1000),
            balance,
            salt: rng.gen_range(0..1000),
        })
        .collect();

    let (p_witness, i_witness) = generate_witness(&users).unwrap();

    // check that p_witness and i_witness are built correctly
    for (i, user) in users.iter().enumerate() {
        assert_eq!(p_witness[2 * i].inner, F::from(user.username + user.salt));
        assert_eq!(p_witness[2 * i + 1].inner, F::from(user.balance));
        assert_eq!(i_witness[14 + 16 * i].inner, F::from(user.balance));
        assert_eq!(i_witness[16 * i].inner, F::zero());

        // The last running total should be equal to 0
        if i == users.len() - 1 {
            assert_eq!(i_witness[15 + 16 * i].inner, F::zero());
        }
    }
}

#[test]
fn witness_layout() {
    // Balances summing to 1480 over 8 users: the average 185 divides the
    // total exactly, so the final running-total slot is 0.
    let balances = vec![20u32, 50, 10, 164, 870, 6, 270, 90];
    let users: Vec<User> = balances
        .iter()
        .enumerate()
        .map(|(i, &balance)| User { username: 100 + i as u32, balance, salt: 7 })
        .collect();

    let (p_witness, i_witness) = generate_witness(&users).unwrap();
    assert_eq!(i_witness.len(), 128);
    assert_eq!(p_witness.len(), 128);
    assert_eq!(i_witness[14].inner, F::from(20u32));
    assert_eq!(i_witness[16].inner, F::zero());
    assert_eq!(i_witness[127].inner, F::zero());
    assert_eq!(p_witness[0].inner, F::from(107u32));
    assert_eq!(p_witness[1].inner, F::from(20u32));
    for idx in 16..128 {
        assert_eq!(p_witness[idx].inner, F::zero());
    }

    // The halving chain of the first user's balance 20:
    // 10, 5, 2, 1 below slot 14, then the identity.
    assert_eq!(i_witness[13].inner, F::from(10u32));
    assert_eq!(i_witness[12].inner, F::from(5u32));
    assert_eq!(i_witness[11].inner, F::from(2u32));
    assert_eq!(i_witness[10].inner, F::from(1u32));
    assert_eq!(i_witness[9].inner, F::zero());
}

#[test]
fn witness_empty_input() {
    let users: Vec<User> = vec![];
    assert_eq!(err_of(generate_witness(&users)), KzgError::EmptyInput);
}

#[test]
fn test_lagrange() {
    let balances = vec![
        sc_u(20),
        sc_u(50),
        sc_u(10),
        sc_u(164),
        sc_u(870),
        sc_u(6),
        sc_u(270),
        sc_u(90),
    ];

    let poly = lagrange_interpolate(&balances);

    let (_domain, omegas) = get_omega_domain(1 << 3).unwrap();

    for (i, omega) in omegas.iter().enumerate() {
        assert_eq!(poly.evaluate(omega).inner, balances[i].inner);
    }
}

#[test]
fn vanishing_polynomial() {
    let roots = vec![sc_u(2), sc_u(3), sc_u(7)];
    let z = build_zero_polynomial(&roots).unwrap();
    assert_eq!(z.coeffs.len(), 4);
    // monic: the top coefficient is the multiplicative identity
    assert_eq!(z.coeffs[3].inner, F::from(1u32));
    for root in roots.iter() {
        assert_eq!(z.evaluate(root).inner, F::zero());
    }
    // and away from the roots it does not vanish
    assert_ne!(z.evaluate(&sc_u(5)).inner, F::zero());
    // (X - 2)(X - 3)(X - 7) = X^3 - 12 X^2 + 41 X - 42
    assert_eq!(z.coeffs[0].inner, -F::from(42u32));
    assert_eq!(z.coeffs[1].inner, F::from(41u32));
    assert_eq!(z.coeffs[2].inner, -F::from(12u32));
}

#[test]
fn polynomial_arithmetic() {
    // (1 + 2X + 3X^2) evaluated at 5 is 86, by Horner's scheme.
    let p = poly_from(vec![F::from(1u32), F::from(2u32), F::from(3u32)]);
    assert_eq!(p.evaluate(&sc_u(5)).inner, F::from(86u32));

    // (1 + X) * (2 + X) = 2 + 3X + X^2
    let a = poly_from(vec![F::from(1u32), F::from(1u32)]);
    let b = poly_from(vec![F::from(2u32), F::from(1u32)]);
    let c = a.mul(&b);
    let got: Vec<F> = c.coeffs.iter().map(|s| s.inner).collect();
    assert_eq!(got, vec![F::from(2u32), F::from(3u32), F::from(1u32)]);

    // (X^2 - 1) / (X - 1) = X + 1 exactly
    let num = poly_from(vec![-F::from(1u32), F::from(0u32), F::from(1u32)]);
    let den = poly_from(vec![-F::from(1u32), F::from(1u32)]);
    let (q, rem) = num.div_rem(&den);
    assert!(rem.is_zero());
    let q_coeffs: Vec<F> = q.coeffs.iter().map(|s| s.inner).collect();
    assert_eq!(q_coeffs, vec![F::from(1u32), F::from(1u32)]);

    // (2 + X) - (1 + X) = 1
    let d = b.sub(&a);
    assert_eq!(d.evaluate(&sc_u(9)).inner, F::from(1u32));
}

#[test]
fn domain_elements_are_generator_powers() {
    let (domain, elements) = get_omega_domain(8).unwrap();
    assert_eq!(domain.size, 8);
    assert_eq!(elements.len(), 8);
    assert_eq!(elements[0].inner, F::from(1u32));
    let g = domain.generator.inner;
    let mut acc = F::from(1u32);
    for e in elements.iter() {
        assert_eq!(e.inner, acc);
        acc *= g;
    }
    // the generator has exact order 8
    assert_eq!(acc, F::from(1u32));
    assert_ne!(elements[4].inner, F::from(1u32));
}

#[test]
fn domain_unavailable() {
    // No multiplicative subgroup of the scalar field reaches this size.
    let err = err_of(get_omega_domain(1usize << 32));
    assert_eq!(err, KzgError::DomainError);
}

#[test]
fn degree_mismatch() {
    let mut rng = test_rng();
    let g1 = G1Point { inner: G1::rand(&mut rng) };
    let g2 = G2Point { inner: G2::rand(&mut rng) };
    let mut kzg = KZG::new(g1, g2, 3);
    kzg.setup(&sc(F::rand(&mut rng)));

    let too_long = poly_from((0..6).map(|i| F::from(i as u32 + 1)).collect());
    assert_eq!(err_of(kzg.commit(&too_long)), KzgError::DegreeExceeded);
    let z = sc_u(1);
    let y = too_long.evaluate(&z);
    assert_eq!(err_of(kzg.open(&too_long, &z, &y)), KzgError::DegreeExceeded);

    // exactly degree + 1 coefficients are accepted
    let fits = poly_from((0..4).map(|i| F::from(i as u32 + 1)).collect());
    assert!(kzg.commit(&fits).is_ok());
}

#[test]
fn engine_before_setup() {
    let mut rng = test_rng();
    let g1 = G1Point { inner: G1::rand(&mut rng) };
    let g2 = G2Point { inner: G2::rand(&mut rng) };
    let kzg = KZG::new(g1, g2, 3);

    let p = poly_from(vec![F::from(1u32), F::from(2u32)]);
    let z = sc_u(1);
    let y = p.evaluate(&z);
    let c = G1Point { inner: G1::rand(&mut rng) };
    let pi = G1Point { inner: G1::rand(&mut rng) };
    assert_eq!(err_of(kzg.commit(&p)), KzgError::Uninitialized);
    assert_eq!(err_of(kzg.open(&p, &z, &y)), KzgError::Uninitialized);
    assert_eq!(err_of(kzg.verify(&y, &z, &c, &pi)), KzgError::Uninitialized);
    assert_eq!(
        err_of(kzg.verify_from_encrypted_y(&c, &z, &c, &pi)),
        KzgError::Uninitialized
    );
    let points = vec![sc_u(2)];
    assert_eq!(err_of(kzg.multi_open(&p, &p, &points)), KzgError::Uninitialized);
    assert_eq!(
        err_of(kzg.verify_multi_open(&c, &pi, &p, &p)),
        KzgError::Uninitialized
    );
}

#[test]
fn open_rejects_wrong_claim() {
    let mut rng = test_rng();
    let g1 = G1Point { inner: G1::rand(&mut rng) };
    let g2 = G2Point { inner: G2::rand(&mut rng) };
    let mut kzg = KZG::new(g1, g2, 4);
    kzg.setup(&sc(F::rand(&mut rng)));

    let p = poly_from(vec![F::from(3u32), F::from(1u32), F::from(4u32)]);
    let z = sc_u(2);
    // p(2) = 3 + 2 + 16 = 21
    let wrong_y = sc_u(22);
    assert_eq!(err_of(kzg.open(&p, &z, &wrong_y)), KzgError::ProofInconsistency);
    let right_y = sc_u(21);
    assert!(kzg.open(&p, &z, &right_y).is_ok());
}

#[test]
fn multi_open_rejects_empty_and_wrong() {
    let mut rng = test_rng();
    let g1 = G1Point { inner: G1::rand(&mut rng) };
    let g2 = G2Point { inner: G2::rand(&mut rng) };
    let mut kzg = KZG::new(g1, g2, 15);
    kzg.setup(&sc(F::rand(&mut rng)));

    let (_d, domain_elements) = get_omega_domain(16).unwrap();
    let p_evaluations: Vec<Scalar> = (0..16).map(|i| sc_u(i * i + 1)).collect();
    let p = lagrange_interpolate(&p_evaluations);

    let empty: Vec<Scalar> = vec![];
    assert_eq!(err_of(kzg.multi_open(&p, &p, &empty)), KzgError::EmptyInput);

    // An L that does not agree with P on the points leaves a remainder.
    let l_wrong = poly_from(vec![F::from(123456u32)]);
    let points = vec![dup(&domain_elements[2]), dup(&domain_elements[3])];
    assert_eq!(
        err_of(kzg.multi_open(&p, &l_wrong, &points)),
        KzgError::ProofInconsistency
    );
}

#[test]
fn soundness_negative() {
    let mut rng = test_rng();
    let degree = 10;
    let polynomial = poly_from((0..degree + 1).map(|_| F::rand(&mut rng)).collect());
    let tau = sc(F::rand(&mut rng));
    let z = sc(F::rand(&mut rng));
    let y = polynomial.evaluate(&z);
    let g1 = G1Point { inner: G1::rand(&mut rng) };
    let g2 = G2Point { inner: G2::rand(&mut rng) };

    let mut kzg = KZG::new(g1, g2, degree);
    kzg.setup(&tau);
    let commitment = kzg.commit(&polynomial).unwrap();
    let pi = kzg.open(&polynomial, &z, &y).unwrap();
    assert!(kzg.verify(&y, &z, &commitment, &pi).unwrap());

    // a proof scaled by a nonzero scalar other than the identity fails
    let pi_mut = G1Point { inner: pi.inner * F::from(5u32) };
    assert!(!kzg.verify(&y, &z, &commitment, &pi_mut).unwrap());

    // a mutated claimed value fails
    let y_mut = sc(y.inner + F::from(1u32));
    assert!(!kzg.verify(&y_mut, &z, &commitment, &pi).unwrap());

    // a mutated commitment fails
    let c_mut = G1Point { inner: commitment.inner * F::from(7u32) };
    assert!(!kzg.verify(&y, &z, &c_mut, &pi).unwrap());
}

#[test]
fn verify_from_encrypted_y_matches_verify() {
    let mut rng = test_rng();
    let degree = 6;
    let polynomial = poly_from((0..degree + 1).map(|_| F::rand(&mut rng)).collect());
    let tau = sc(F::rand(&mut rng));
    let z = sc(F::rand(&mut rng));
    let y = polynomial.evaluate(&z);
    let g1 = G1::rand(&mut rng);
    let g2 = G2Point { inner: G2::rand(&mut rng) };

    let mut kzg = KZG::new(G1Point { inner: g1 }, g2, degree);
    kzg.setup(&tau);
    let commitment = kzg.commit(&polynomial).unwrap();
    let pi = kzg.open(&polynomial, &z, &y).unwrap();

    let py = G1Point { inner: g1 * y.inner };
    assert!(kzg.verify_from_encrypted_y(&py, &z, &commitment, &pi).unwrap());
    let py_wrong = G1Point { inner: g1 * (y.inner + F::from(1u32)) };
    assert!(!kzg.verify_from_encrypted_y(&py_wrong, &z, &commitment, &pi).unwrap());
}

#[test]
fn power_of_two_sizes() {
    assert!(is_pow2_size(1));
    assert!(is_pow2_size(2));
    assert!(is_pow2_size(16));
    assert!(is_pow2_size(1 << 20));
    assert!(!is_pow2_size(0));
    assert!(!is_pow2_size(3));
    assert!(!is_pow2_size(12));
    assert!(!is_pow2_size(1600));
}

#[test]
fn multi_open_degree_exceeded() {
    let mut rng = test_rng();
    let g1 = G1Point { inner: G1::rand(&mut rng) };
    let g2 = G2Point { inner: G2::rand(&mut rng) };
    let mut kzg = KZG::new(g1, g2, 2);
    kzg.setup(&sc(F::rand(&mut rng)));

    // P - L is the zero polynomial, so the division is exact, but the
    // quotient has more coefficients than the reference string.
    let p = poly_from((0..6).map(|i| F::from(i as u32 + 1)).collect());
    let l = poly_from((0..6).map(|i| F::from(i as u32 + 1)).collect());
    let points = vec![sc_u(4), sc_u(9)];
    assert_eq!(err_of(kzg.multi_open(&p, &l, &points)), KzgError::DegreeExceeded);

    // and a vanishing or evaluations polynomial beyond the reference string
    // is rejected by the verifier as well
    let c = G1Point { inner: G1::rand(&mut rng) };
    let pi = G1Point { inner: G1::rand(&mut rng) };
    let long = poly_from((0..6).map(|i| F::from(i as u32 + 1)).collect());
    let short = poly_from(vec![F::from(1u32)]);
    assert_eq!(
        err_of(kzg.verify_multi_open(&c, &pi, &long, &short)),
        KzgError::DegreeExceeded
    );
    assert_eq!(
        err_of(kzg.verify_multi_open(&c, &pi, &short, &long)),
        KzgError::DegreeExceeded
    );
}

#[test]
fn resetup_overwrites() {
    let mut rng = test_rng();
    let degree = 5;
    let g1 = G1Point { inner: G1::rand(&mut rng) };
    let g2 = G2Point { inner: G2::rand(&mut rng) };
    let mut kzg = KZG::new(g1, g2, degree);

    kzg.setup(&sc(F::rand(&mut rng)));
    assert_eq!(kzg.crs.len(), degree + 1);
    assert_eq!(kzg.crs_2.len(), degree + 1);

    // a second setup is a fresh trusted setup, not an extension
    kzg.setup(&sc(F::rand(&mut rng)));
    assert_eq!(kzg.crs.len(), degree + 1);
    assert_eq!(kzg.crs_2.len(), degree + 1);

    let polynomial = poly_from((0..degree + 1).map(|_| F::rand(&mut rng)).collect());
    let z = sc(F::rand(&mut rng));
    let y = polynomial.evaluate(&z);
    let commitment = kzg.commit(&polynomial).unwrap();
    let pi = kzg.open(&polynomial, &z, &y).unwrap();
    assert!(kzg.verify(&y, &z, &commitment, &pi).unwrap());
}

#[test]
fn witness_running_total_field_negative() {
    // Balances [0, 2] with average 1: after the first user the running
    // total is -1, which the table holds as the field's additive inverse.
    let users = vec![
        User { username: 1, balance: 0, salt: 2 },
        User { username: 3, balance: 2, salt: 4 },
    ];
    let (_p_witness, i_witness) = generate_witness(&users).unwrap();
    assert_eq!(i_witness[15].inner, -F::from(1u32));
    // after the second user the total matches twice the average exactly
    assert_eq!(i_witness[31].inner, F::zero());
}

#[test]
fn domain_of_inexact_size_is_rejected() {
    // The field has no multiplicative subgroup of order 5; the external
    // library would round up to 8, which is not the requested domain.
    assert_eq!(err_of(get_omega_domain(5)), KzgError::DomainError);
    assert_eq!(err_of(get_omega_domain(0)), KzgError::DomainError);
}

#[test]
fn domain_elements_are_distinct_roots_of_unity() {
    let (domain, elements) = get_omega_domain(8).unwrap();
    for i in 0..8 {
        for j in (i + 1)..8 {
            assert_ne!(elements[i].inner, elements[j].inner);
        }
    }
    // the generator has exact order 8: its eighth power is 1, no earlier
    // power is
    let g = domain.generator.inner;
    let mut acc = g;
    for _ in 1..8 {
        assert_ne!(acc, F::from(1u32));
        acc *= g;
    }
    assert_eq!(acc, F::from(1u32));
}

#[test]
fn witness_total_beyond_i32() {
    // 131100 equal balances of 16383 sum to 2147811300, above the signed
    // 32-bit range but within the unsigned one; the average is exact, so
    // every running-total slot is 0.
    let n = 131100usize;
    let users: Vec<User> = (0..n)
        .map(|i| User { username: i as u32, balance: 16383, salt: 1 })
        .collect();
    let (p_witness, i_witness) = generate_witness(&users).unwrap();
    assert_eq!(i_witness.len(), 16 * n);
    assert_eq!(p_witness.len(), 16 * n);
    assert_eq!(i_witness[14].inner, F::from(16383u32));
    assert_eq!(i_witness[15].inner, F::zero());
    assert_eq!(i_witness[16 * n - 1].inner, F::zero());
}
