//! Tests for the capabilities, the engines, and the dispatcher.

use dmarc_rs::engine::pipeline_solve;
use dmarc_rs::ip::Ip;
use dmarc_rs::iplist::IpList;
use dmarc_rs::res::{
    parallel_solve, res_init, resolve, resolve_with_limit, simple_solve, DumbSolver, ResType,
};
use dmarc_rs::ResolveError;

#[test]
fn test_null_solve() {
    let a = res_init(ResType::Null);

    let ip = Ip::new("1.1.1.1");
    assert_eq!("1.1.1.1", a.solve(&ip).name);
}

#[test]
fn test_fake_solve() {
    let a = res_init(ResType::Fake);

    let ip = Ip::new("1.1.1.1");
    assert_eq!("some.host.invalid", a.solve(&ip).name);
}

#[test]
fn test_sleep_solve() {
    let a = res_init(ResType::Sleep);

    let ip = Ip::new("1.1.1.1");
    assert_eq!("some.host.invalid", a.solve(&ip).name);
}

#[test]
fn mod_test_null_solve() {
    let a = res_init(ResType::Null);

    let ip = Ip::new("2606:4700:4700::1111");
    assert_eq!("2606:4700:4700::1111", a.solve(&ip).name);
}

#[test]
fn mod_test_fake_solve() {
    let a = res_init(ResType::Fake);

    let ip = Ip::new("192.0.2.1");
    assert_eq!("some.host.invalid", a.solve(&ip).name);
}

#[test]
fn mod_test_sleep_solve() {
    let a = res_init(ResType::Sleep);

    let ip = Ip::new("192.0.2.1");
    assert_eq!("some.host.invalid", a.solve(&ip).name);
}

#[test]
fn test_resolve() {
    let l = IpList::from_addrs(vec!["1.1.1.1", "2606:4700:4700::1111", "192.0.2.1"]);
    let res = res_init(ResType::Fake);

    // Using the simple single threaded solver.
    let ptr = resolve(&l, 1, &res).unwrap();

    // Use the parallel solver with as many threads as the CPU has.
    let ptr2 = resolve(&l, num_cpus::get(), &res).unwrap();

    assert_eq!(ptr, ptr2);
}

#[test]
fn mod_test_resolve() {
    let l = IpList::from_addrs(vec!["1.1.1.1", "2606:4700:4700::1111", "192.0.2.1"]);
    let res = res_init(ResType::Fake);

    // Using the simple single threaded solver.
    let ptr = simple_solve(&l, &res);

    // Use the parallel solver.
    let ptr2 = resolve(&l, num_cpus::get(), &res).unwrap();

    assert_eq!(ptr, ptr2);
}

#[test]
fn resolver_test_null_solve() {
    let a = res_init(ResType::Null);

    let ip = Ip::new("1.1.1.1");
    assert_eq!("1.1.1.1", a.solve(&ip).name);
}

#[test]
fn resolver_test_fake_solve() {
    let a = res_init(ResType::Fake);

    let ip = Ip::new("1.1.1.1");
    assert_eq!("some.host.invalid", a.solve(&ip).name);
}

#[test]
fn resolver_test_sleep_solve() {
    let a = res_init(ResType::Sleep);

    let ip = Ip::new("1.1.1.1");
    assert_eq!("some.host.invalid", a.solve(&ip).name);
}

#[test]
fn resolve_test_resolve() {
    let l = IpList::from_addrs(vec!["1.1.1.1", "2606:4700:4700::1111", "192.0.2.1"]);
    let res = res_init(ResType::Fake);

    // Using the simple single threaded solver.
    let ptr = resolve(&l, 1, &res).unwrap();

    // Use the parallel solver with as many threads as the CPU has.
    let ptr2 = resolve(&l, num_cpus::get(), &res).unwrap();

    assert_eq!(ptr, ptr2);
}

#[test]
fn resolve_test_invalid_jobs() {
    let l = IpList::from_addrs(vec!["1.1.1.1", "2606:4700:4700::1111", "192.0.2.1"]);
    let res = res_init(ResType::Fake);

    assert!(resolve(&l, 1000, &res).is_err())
}

#[test]
fn test_invalid_jobs() {
    let l = IpList::from_addrs(vec!["1.1.1.1", "2606:4700:4700::1111", "192.0.2.1"]);
    let res = res_init(ResType::Fake);

    assert!(resolve(&l, 1000, &res).is_err())
}

#[test]
fn test_too_many_jobs_error() {
    let l = IpList::from_addrs(vec!["1.1.1.1", "192.0.2.1"]);
    let res = res_init(ResType::Fake);

    assert_eq!(
        Err(ResolveError::TooManyJobs),
        resolve_with_limit(&l, 5, 4, &res).map(|r| r.len())
    );
    assert!(resolve_with_limit(&l, 4, 4, &res).is_ok());
}

#[test]
fn test_resolve_empty() {
    let a = IpList::new();
    let res = res_init(ResType::Fake);

    let r = resolve(&a, 1, &res);

    assert!(r.is_err());
    assert_eq!(
        Err(ResolveError::EmptyInput),
        resolve(&a, 1, &res).map(|l| l.len())
    );
}

#[test]
#[should_panic]
fn test_solve_empty() {
    let a = IpList::new();
    let res = res_init(ResType::Fake);

    let r = resolve(&a, 1, &res);

    assert!(r.is_err());
    assert!(r.unwrap().is_empty());
}

#[test]
fn test_parallel_solve_empty() {
    let a = IpList::new();
    let res = res_init(ResType::Fake);

    let r = parallel_solve(&a, num_cpus::get_physical(), &res);

    assert!(r.is_empty())
}

#[test]
fn test_simple_solve_empty() {
    let a = IpList::new();
    let res = res_init(ResType::Fake);

    let r = simple_solve(&a, &res);

    assert!(r.is_empty())
}

#[test]
fn test_dumb_simple_solve_ok() {
    let l = IpList::from_addrs(vec!["1.1.1.1", "2606:4700:4700::1111", "192.0.2.1"]);
    let res = res_init(ResType::Fake);

    let ptr = simple_solve(&l, &res);

    assert_eq!(l.len(), ptr.len());
    for x in ptr.into_vec() {
        assert_eq!("some.host.invalid", x.name);
    }
}

#[test]
fn test_dumb_parallel_solve_ok() {
    let l = IpList::from_addrs(vec!["1.1.1.1", "2606:4700:4700::1111", "192.0.2.1"]);
    let res = res_init(ResType::Fake);

    let ptr = parallel_solve(&l, num_cpus::get_physical(), &res);

    assert_eq!(l.len(), ptr.len());
    // Order is not always preserved so check inside
    //
    for x in ptr.into_vec() {
        assert_eq!("some.host.invalid", x.name);
    }
}

#[test]
fn test_fakesolver_resolve() {
    let l = IpList::from_addrs(vec!["1.1.1.1", "2606:4700:4700::1111", "192.0.2.1"]);
    let res = res_init(ResType::Fake);

    let ptr = resolve(&l, 1, &res);
    assert!(ptr.is_ok());

    let ptr = ptr.unwrap();
    for x in ptr.into_vec() {
        assert_eq!("some.host.invalid", x.name);
    }
}

#[test]
fn test_dumb_resolve_ok() {
    let l = IpList::from_addrs(vec!["1.1.1.1", "2606:4700:4700::1111", "192.0.2.1"]);
    let res = res_init(ResType::Fake);

    let ptr = resolve(&l, num_cpus::get(), &res);

    assert!(ptr.is_ok());
    let ptr = ptr.unwrap();

    assert_eq!(l.len(), ptr.len());
    // Order is not always preserved so check inside
    //
    for x in ptr.into_vec() {
        assert_eq!("some.host.invalid", x.name);
    }
}

#[test]
fn test_engines_agree() {
    // All three engines produce the same canonical result for a
    // deterministic capability — here with the Null capability, whose names
    // vary by address.
    let l = IpList::from_addrs(vec!["224.0.0.1", "1.0.0.1", "::1", "1.1.1.1", "192.0.2.1"]);
    for kind in [ResType::Null, ResType::Fake] {
        let res = res_init(kind);
        let a = simple_solve(&l, &res);
        let b = parallel_solve(&l, num_cpus::get(), &res);
        let c = pipeline_solve(&l, 2, &res);
        assert_eq!(a, b);
        assert_eq!(a, c);
    }
}

#[test]
fn test_pipeline_solve_names() {
    let l = IpList::from_addrs(vec!["9.9.9.9", "1.0.0.1", "::face:b00c"]);
    let res = res_init(ResType::Null);

    let r = pipeline_solve(&l, 2, &res);

    assert_eq!(3, r.len());
    assert_eq!("1.0.0.1", r.get(0).name);
    assert_eq!("9.9.9.9", r.get(1).name);
    assert_eq!("::face:b00c", r.get(2).name);
}

#[test]
fn test_concrete_scenario() {
    // The fixed three-address batch under the fake capability, sequential
    // and maximally parallel: identical, fully determined output.
    let l = IpList::from_addrs(vec!["1.1.1.1", "2606:4700:4700::1111", "192.0.2.1"]);
    let res = res_init(ResType::Fake);
    let expected = IpList::from_pairs(vec![
        ("1.1.1.1", "some.host.invalid"),
        ("192.0.2.1", "some.host.invalid"),
        ("2606:4700:4700::1111", "some.host.invalid"),
    ]);

    let r1 = resolve(&l, 1, &res).unwrap();
    assert_eq!(expected, r1);

    let r2 = resolve(&l, num_cpus::get(), &res).unwrap();
    assert_eq!(expected, r2);
}

#[test]
fn test_length_preserved_across_jobs() {
    let l = IpList::from_addrs(vec!["1.1.1.1", "1.1.1.1", "192.0.2.1", "::1"]);
    let res = res_init(ResType::Null);
    let max = num_cpus::get();
    let mut njobs: usize = 1;
    while njobs <= max {
        let r = resolve(&l, njobs, &res).unwrap();
        assert_eq!(l.len(), r.len());
        njobs += 1;
    }
}

#[test]
fn test_dumbsolver_lookup() {
    let ip = dmarc_rs::addr::IpAddr::parse("1.1.1.1").unwrap();
    assert_eq!(Ok("dumb.host.name".to_string()), DumbSolver::lookup_addr(&ip));
}
