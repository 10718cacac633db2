use bmvm_host::elf::ExecBundle;
use bmvm_host::linker::config::{Config, ConfigBuilder};
use bmvm_host::linker::errors::Errors;
use bmvm_host::linker::hypercall;
use bmvm_host::linker::linker::{ConversionError, HostFnCollision, LinkError};
use bmvm_host::linker::linking::{collect_hypercalls, find_upcall_ptr, Linker};
use bmvm_host::linker::upcall;
use bmvm_host::linker::validate::ValidationResults;
use bmvm_host::linker::{CallDirection, FnCall, Func, UpcallPtr};
use bmvm_host::memory::region::RegionCollection;

fn call(sig: u64, name: &str) -> FnCall {
    FnCall { sig, name: name.to_string(), debug_param_types: vec![], debug_return_type: None }
}

fn func(sig: u64, name: &str) -> Func {
    Func { sig, name: name.to_string(), params: vec!["u32".to_string()], output: Some("u64".to_string()) }
}

fn hyper(sig: u64, name: &str) -> hypercall::Function<()> {
    hypercall::Function { func: func(sig, name), call: () }
}

fn bundle(host: Vec<FnCall>, expose: Vec<FnCall>, upcalls: Vec<UpcallPtr>) -> ExecBundle {
    ExecBundle {
        entry: 0x1000,
        mem_regions: RegionCollection::new(),
        layout: vec![],
        expose,
        host,
        upcalls,
    }
}

#[test]
fn matching_functions_link() {
    let host = [func(1, "add"), func(2, "sub")];
    let refs: Vec<&Func> = host.iter().collect();
    let guest = vec![call(2, "sub"), call(1, "add")];
    let res = ValidationResults::new(&refs, &guest);
    assert!(res.is_empty());
    assert!(res.into_error(7u8, CallDirection::GuestToHost, true).unwrap() == 7);
}

#[test]
fn missing_hypercall() {
    let host = [func(1, "add")];
    let refs: Vec<&Func> = host.iter().collect();
    let guest = vec![call(1, "add"), call(3, "mul")];
    let res = ValidationResults::new(&refs, &guest);
    match res.into_error((), CallDirection::GuestToHost, false) {
        Err(LinkError::MissingHypercallImpl { func }) => {
            assert_eq!(func.name, "mul");
            assert_eq!(func.sig, 3);
        }
        other => panic!("unexpected {:?}", other),
    }
}

#[test]
fn signature_mismatch() {
    let host = [func(1, "add")];
    let refs: Vec<&Func> = host.iter().collect();
    let guest = vec![call(9, "add")];
    match ValidationResults::new(&refs, &guest).into_error((), CallDirection::GuestToHost, false) {
        Err(LinkError::SignatureMismatch { guest, host }) => {
            assert_eq!(guest.sig, 9);
            assert_eq!(host.sig, 1);
            assert_eq!(host.name, "add");
        }
        other => panic!("unexpected {:?}", other),
    }
}

#[test]
fn unused_host_function_only_an_error_when_configured() {
    let host = [func(1, "add"), func(2, "sub")];
    let refs: Vec<&Func> = host.iter().collect();
    let guest = vec![call(1, "add")];
    assert!(ValidationResults::new(&refs, &guest).into_error((), CallDirection::GuestToHost, false).is_ok());
    match ValidationResults::new(&refs, &guest).into_error((), CallDirection::GuestToHost, true) {
        Err(LinkError::HostFunctionUnused { func }) => assert_eq!(func.name, "sub"),
        other => panic!("unexpected {:?}", other),
    }
}

#[test]
fn upcall_direction_errors() {
    let host = [func(1, "cb")];
    let refs: Vec<&Func> = host.iter().collect();
    let guest = vec![call(5, "other")];
    match ValidationResults::new(&refs, &guest).into_error((), CallDirection::HostToGuest, true) {
        Err(LinkError::Joined(errs)) => {
            assert_eq!(errs.len(), 2);
            assert!(matches!(errs.as_slice()[0], LinkError::MissingUpcallImpl { .. }));
            assert!(matches!(errs.as_slice()[1], LinkError::GuestFunctionUnused { .. }));
        }
        other => panic!("unexpected {:?}", other),
    }
}

#[test]
fn guest_signature_collision() {
    let host = [func(4, "a"), func(5, "b")];
    let refs: Vec<&Func> = host.iter().collect();
    let guest = vec![call(4, "a"), call(4, "b")];
    match ValidationResults::new(&refs, &guest).into_error((), CallDirection::GuestToHost, false) {
        Err(LinkError::Joined(errs)) => {
            let errs = errs.into_inner();
            match &errs[0] {
                LinkError::GuestSignatureCollision { funcs } => {
                    let names: Vec<&str> = funcs.0.iter().map(|f| f.name.as_str()).collect();
                    assert_eq!(names, vec!["a", "b"]);
                }
                other => panic!("unexpected {:?}", other),
            }
            assert!(errs.iter().any(|e| matches!(e, LinkError::SignatureMismatch { .. })));
        }
        other => panic!("unexpected {:?}", other),
    }
}

#[test]
fn joining_errors() {
    assert_eq!(LinkError::with_errors(3u8, vec![]).unwrap(), 3);
    match LinkError::with_errors((), vec![LinkError::ParseError(ConversionError::ParseError)]) {
        Err(LinkError::ParseError(ConversionError::ParseError)) => {}
        other => panic!("unexpected {:?}", other),
    }
    let two = vec![
        LinkError::ParseError(ConversionError::ParseError),
        LinkError::ParseError(ConversionError::InvalidString),
    ];
    match LinkError::with_errors((), two) {
        Err(LinkError::Joined(errs)) => assert_eq!(errs.len(), 2),
        other => panic!("unexpected {:?}", other),
    }
}

#[test]
fn error_collections() {
    assert!(Errors::<u8>::new(vec![]).is_none());
    let e = Errors::new(vec![1u8, 2, 3]).unwrap();
    assert_eq!(e.len(), 3);
    assert!(!e.is_empty());
    assert_eq!(e.as_slice(), &[1, 2, 3]);
    assert_eq!(e.iter().copied().collect::<Vec<_>>(), vec![1, 2, 3]);
    assert_eq!(e.into_inner(), vec![1, 2, 3]);
    let empty = Errors::<u8>::new_unchecked(vec![]);
    assert!(empty.is_empty());
    assert_eq!(empty.len(), 0);
}

#[test]
fn call_direction_names() {
    assert_eq!(CallDirection::HostToGuest.to_string(), "Host -> Guest");
    assert_eq!(CallDirection::GuestToHost.to_string(), "Guest -> Host");
}

#[test]
fn linker_configuration() {
    let cfg = Config::default();
    assert!(!cfg.error_unused_host);
    assert!(!cfg.error_unused_guest);
    assert!(cfg.upcalls.is_empty());
    let cfg = Config::from(
        ConfigBuilder::new()
            .error_unused_host(true)
            .error_unused_guest(true)
            .register_guest_function(upcall::Function::new("cb", 7, vec![], None)),
    );
    assert!(cfg.error_unused_host);
    assert!(cfg.error_unused_guest);
    assert_eq!(cfg.upcalls.len(), 1);
    assert_eq!(cfg.upcalls[0].base.name, "cb");
    assert_eq!(cfg.upcalls[0].ptr(), None);
}

#[test]
fn upcall_function_linking() {
    let mut f = upcall::Function::new("cb", 7, vec!["u8".to_string()], Some("u16".to_string()));
    assert_eq!(f.base.sig, 7);
    assert_eq!(f.base.params, vec!["u8".to_string()]);
    assert_eq!(f.ptr(), None);
    f.link(0x4000);
    assert_eq!(f.ptr(), Some(0x4000));
}

#[test]
fn collecting_converted_host_functions() {
    let ok: Vec<Result<hypercall::Function<()>, ConversionError>> = vec![Ok(hyper(1, "a")), Ok(hyper(2, "b"))];
    let v = collect_hypercalls(ok).unwrap();
    assert_eq!(v.len(), 2);
    assert_eq!(v[1].func.name, "b");
    let bad: Vec<Result<hypercall::Function<()>, ConversionError>> =
        vec![Ok(hyper(1, "a")), Err(ConversionError::InvalidString), Err(ConversionError::ParseError)];
    assert!(matches!(collect_hypercalls(bad), Err(ConversionError::InvalidString)));
}

#[test]
fn last_upcall_address_counts() {
    let ptrs = [
        UpcallPtr { sig: 1, func: 0x10 },
        UpcallPtr { sig: 2, func: 0x20 },
        UpcallPtr { sig: 1, func: 0x30 },
    ];
    assert_eq!(find_upcall_ptr(&ptrs, 1), Some(0x30));
    assert_eq!(find_upcall_ptr(&ptrs, 2), Some(0x20));
    assert_eq!(find_upcall_ptr(&ptrs, 3), None);
}

#[test]
fn linker_links_hypercalls_and_upcalls() {
    let cfg = Config::from(ConfigBuilder::new().register_guest_function(upcall::Function::new("cb", 7, vec![], None)));
    let mut linker = Linker::<()>::new(cfg).unwrap();
    let b = bundle(vec![call(1, "add")], vec![call(7, "cb")], vec![UpcallPtr { sig: 7, func: 0x8000 }]);
    assert!(linker.link(vec![Ok(hyper(1, "add"))], &b).is_ok());
    let (upcalls, hypercalls) = linker.into_calls();
    assert_eq!(upcalls[0].ptr(), Some(0x8000));
    assert_eq!(hypercalls.len(), 1);
    assert_eq!(hypercalls[0].func.name, "add");
}

#[test]
fn linker_reports_parse_errors_first() {
    let mut linker = Linker::<()>::new(Config::default()).unwrap();
    let b = bundle(vec![call(1, "add")], vec![], vec![]);
    match linker.link(vec![Err(ConversionError::ParseError)], &b) {
        Err(LinkError::ParseError(ConversionError::ParseError)) => {}
        other => panic!("unexpected {:?}", other),
    }
    assert!(linker.into_calls().1.is_empty());
}

#[test]
fn linker_reports_missing_hypercall() {
    let mut linker = Linker::<()>::new(Config::default()).unwrap();
    let b = bundle(vec![call(1, "add")], vec![], vec![]);
    match linker.link(vec![], &b) {
        Err(LinkError::MissingHypercallImpl { func }) => assert_eq!(func.name, "add"),
        other => panic!("unexpected {:?}", other),
    }
}

#[test]
fn linker_reports_upcall_without_address() {
    let cfg = Config::from(ConfigBuilder::new().register_guest_function(upcall::Function::new("cb", 7, vec![], None)));
    let mut linker = Linker::<()>::new(cfg).unwrap();
    let b = bundle(vec![], vec![call(7, "cb")], vec![]);
    match linker.link(vec![], &b) {
        Err(LinkError::MissingUpcallImpl { func }) => assert_eq!(func.name, "cb"),
        other => panic!("unexpected {:?}", other),
    }
    assert_eq!(linker.into_calls().0[0].ptr(), None);
}

#[test]
fn functions_as_text() {
    let f = Func {
        sig: 1,
        name: "f".to_string(),
        params: vec!["u32".to_string(), "u8".to_string()],
        output: Some("u64".to_string()),
    };
    assert_eq!(f.to_string(), "f(u32, u8) -> u64");
    let g = Func { sig: 2, name: "g".to_string(), params: vec![], output: None };
    assert_eq!(g.to_string(), "g()");
    let h = Func { sig: 2, name: "h".to_string(), params: vec!["x".to_string()], output: None };
    let collision = HostFnCollision(vec![g, h]);
    assert_eq!(collision.to_string(), "g(),h(x)");
    assert_eq!(HostFnCollision(vec![]).to_string(), "");
}
