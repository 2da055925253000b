use std::cell::Cell;
use std::rc::Rc;
use zerx::{
    any, lazy, ErrorCode, Hooks, Modify, NoHooks, ObjectMap, ParseContext, Schema, Validator, ZerxError, ZerxValue,
    MAX_PARSE_DEPTH,
};

/// A host that keeps refinement predicates and lazy schemas by id.
struct Host {
    refines: Vec<Box<dyn Fn(&ZerxValue) -> bool>>,
    lazies: Vec<Schema>,
}

impl Hooks for Host {
    fn refine(&self, id: u64, value: &ZerxValue) -> bool {
        (self.refines[id as usize])(value)
    }

    fn resolve(&self, id: u64) -> Result<Schema, ZerxError> {
        Ok(self.lazies[id as usize].clone())
    }
}

fn empty_host() -> Host {
    Host { refines: Vec::new(), lazies: Vec::new() }
}

/// A chain of `n` lazy schemas over `any()`: lazy `k` resolves to the chain of length `k`.
fn lazy_chain(n: usize) -> (Schema, Host) {
    let mut host = empty_host();
    let mut s: Schema = any().into();
    for k in 0..n {
        host.lazies.push(s.clone());
        s = lazy(k as u64).into();
    }
    (s, host)
}

#[test]
fn any_accepts_all() {
    let s: Schema = any().into();
    let h = empty_host();
    assert!(s.validate(&h, &ZerxValue::Bool(true)).is_ok());
    assert!(s.validate(&h, &ZerxValue::I64(7)).is_ok());
    assert!(s.validate(&h, &ZerxValue::F64(zerx::Float { bits: 2.5f64.to_bits(), text: "2.5".to_string() })).is_ok());
    assert!(s.validate(&h, &ZerxValue::String("hi".to_string())).is_ok());
    assert!(s.validate(&h, &ZerxValue::Null).is_ok());
    assert!(s
        .validate(&h, &ZerxValue::Array(vec![ZerxValue::I64(1), ZerxValue::I64(2), ZerxValue::I64(3)]))
        .is_ok());
    let mut small = ObjectMap::new();
    small.insert("x".to_string(), ZerxValue::I64(1));
    assert!(s.validate(&h, &ZerxValue::Object(small)).is_ok());
    assert_eq!(s.validate(&h, &ZerxValue::I64(7)).unwrap(), ZerxValue::I64(7));
}

#[test]
fn modify_chain_preserves_type() {
    let b = any()
        .optional()
        .nullable()
        .describe("d")
        .deprecated()
        .read_only()
        .meta("x", ZerxValue::Bool(true))
        .title("t");
    let s: Schema = b.into();
    assert!(s.modifiers.optional);
    assert!(s.modifiers.nullable);
    assert!(s.modifiers.deprecated);
    assert!(s.modifiers.read_only);
    assert_eq!(s.modifiers.description.as_deref(), Some("d"));
    assert_eq!(s.modifiers.meta.get("x"), Some(&ZerxValue::Bool(true)));
    assert_eq!(s.modifiers.title.as_deref(), Some("t"));

    let _lb: zerx::LazySchema = lazy(0).optional().nullable().describe("d");
}

#[test]
fn clone_immutability() {
    let base = any().describe("x");
    let opt: Schema = base.clone().optional().into();
    let orig: Schema = Schema::from(base);
    assert!(opt.modifiers.optional);
    assert_eq!(opt.modifiers.description.as_deref(), Some("x"));
    assert!(!orig.modifiers.optional);
    assert_eq!(orig.modifiers.description.as_deref(), Some("x"));
}

#[test]
fn default_precedes_optional() {
    let mut ctx = ParseContext::new();
    let s_default: Schema = any().default(ZerxValue::I64(7)).into();
    assert_eq!(s_default.parse_field(&NoHooks, None, &mut ctx).unwrap(), Some(ZerxValue::I64(7)));

    let s_optional: Schema = any().optional().into();
    assert_eq!(s_optional.parse_field(&NoHooks, None, &mut ctx).unwrap(), None);

    let s_required: Schema = any().into();
    let err = s_required.parse_field(&NoHooks, None, &mut ctx).unwrap_err();
    assert_eq!(err.code, ErrorCode::REQUIRED());
}

#[test]
fn nullable_and_explicit_null() {
    let mut ctx = ParseContext::new();
    let s: Schema = any().nullable().into();
    assert_eq!(s.parse_present(&NoHooks, &ZerxValue::Null, &mut ctx).unwrap(), ZerxValue::Null);

    let s2: Schema = any().default(ZerxValue::I64(7)).nullable().into();
    assert_eq!(s2.parse_field(&NoHooks, Some(&ZerxValue::Null), &mut ctx).unwrap(), Some(ZerxValue::Null));
}

#[test]
fn validators_order_and_before_refine() {
    let text = ZerxValue::String("abc".to_string());

    let mut s: Schema = any().into();
    s.validators.push(Validator::MinLength(10));
    assert_eq!(s.validate(&NoHooks, &text).unwrap_err().code, ErrorCode::STRING_TOO_SHORT());

    let mut s2: Schema = any().into();
    s2.validators.push(Validator::MinLength(10));
    s2.validators.push(Validator::MaxLength(1));
    assert_eq!(s2.validate(&NoHooks, &text).unwrap_err().code, ErrorCode::STRING_TOO_SHORT());

    let flag = Rc::new(Cell::new(false));
    let flag_clone = flag.clone();
    let host = Host {
        refines: vec![Box::new(move |_| {
            flag_clone.set(true);
            true
        })],
        lazies: Vec::new(),
    };
    let mut s3: Schema = any().refine(0, "should not run").into();
    s3.validators.push(Validator::MaxLength(1));
    assert_eq!(s3.validate(&host, &text).unwrap_err().code, ErrorCode::STRING_TOO_LONG());
    assert!(!flag.get());
}

#[test]
fn refine_aggregates() {
    let host = Host {
        refines: vec![Box::new(|v| v.as_i64() == Some(5)), Box::new(|_| false)],
        lazies: Vec::new(),
    };
    let s: Schema = any().refine(0, "must be 5").into();
    assert!(s.validate(&host, &ZerxValue::I64(5)).is_ok());
    let err = s.validate(&host, &ZerxValue::I64(6)).unwrap_err();
    assert_eq!(err.code, ErrorCode::REFINEMENT_FAILED());
    assert_eq!(err.message, "must be 5");

    let s2: Schema = any().refine(0, "must be 5").refine(1, "second refine").into();
    let err2 = s2.validate(&host, &ZerxValue::I64(6)).unwrap_err();
    assert_eq!(err2.message, "must be 5");
}

#[test]
fn depth_limit_frames() {
    let (s, host) = lazy_chain(MAX_PARSE_DEPTH);
    assert_eq!(s.validate(&host, &ZerxValue::I64(42)).unwrap_err().code, ErrorCode::PARSE_DEPTH_EXCEEDED());

    let (s2, host2) = lazy_chain(MAX_PARSE_DEPTH - 1);
    assert!(s2.validate(&host2, &ZerxValue::I64(42)).is_ok());
}

#[test]
fn depth_limit_does_not_poison_context() {
    let mut ctx = ParseContext::new();
    let (deep, host) = lazy_chain(MAX_PARSE_DEPTH);
    assert_eq!(
        deep.parse_present(&host, &ZerxValue::Bool(true), &mut ctx).unwrap_err().code,
        ErrorCode::PARSE_DEPTH_EXCEEDED()
    );
    let shallow: Schema = any().into();
    assert!(shallow.parse_present(&host, &ZerxValue::Bool(true), &mut ctx).is_ok());
}

struct Accepting;

impl Hooks for Accepting {
    fn refine(&self, _id: u64, _value: &ZerxValue) -> bool {
        true
    }

    fn resolve(&self, _id: u64) -> Result<Schema, ZerxError> {
        Ok(any().into())
    }
}

#[test]
fn refinement_passes_when_the_host_accepts() {
    let s: Schema = any().refine(1, "never").into();
    assert!(s.validate(&Accepting, &ZerxValue::Bool(true)).is_ok());
    let lazy_any: Schema = lazy(0).into();
    assert!(lazy_any.validate(&Accepting, &ZerxValue::I64(3)).is_ok());
}

/// A host that builds each lazy schema once, with the library's lazy state machine.
struct MemoHost {
    builds: Rc<Cell<usize>>,
    state: std::cell::RefCell<zerx::LazyState>,
}

impl Hooks for MemoHost {
    fn refine(&self, _id: u64, _value: &ZerxValue) -> bool {
        true
    }

    fn resolve(&self, _id: u64) -> Result<Schema, ZerxError> {
        let current = std::mem::replace(&mut *self.state.borrow_mut(), zerx::LazyState::Resolving);
        let (step, next) = zerx::lazy_begin(current);
        *self.state.borrow_mut() = next;
        match step {
            zerx::LazyStep::Build => {
                self.builds.set(self.builds.get() + 1);
                let (answer, done) = zerx::lazy_finish(any().into());
                *self.state.borrow_mut() = done;
                Ok(answer)
            },
            zerx::LazyStep::Cached(s) => Ok(s),
            zerx::LazyStep::Reentered(e) => Err(e),
        }
    }
}

#[test]
fn lazy_memoisation() {
    let builds = Rc::new(Cell::new(0usize));
    let host = MemoHost { builds: builds.clone(), state: std::cell::RefCell::new(zerx::LazyState::Unresolved) };
    let s: Schema = lazy(0).into();
    assert!(s.validate(&host, &ZerxValue::I64(1)).is_ok());
    assert!(s.validate(&host, &ZerxValue::I64(2)).is_ok());
    assert_eq!(builds.get(), 1);
    let s2 = s.clone();
    assert!(s2.validate(&host, &ZerxValue::I64(3)).is_ok());
    assert_eq!(builds.get(), 1);
}

#[test]
fn lazy_reentrance_guard() {
    let host = MemoHost { builds: Rc::new(Cell::new(0usize)), state: std::cell::RefCell::new(zerx::LazyState::Resolving) };
    let err = host.resolve(0).unwrap_err();
    assert_eq!(err.code, ErrorCode::LAZY_REENTRANCE());
    assert_eq!(err.message, "lazy schema re-entered its own resolution");
    let s: Schema = lazy(0).into();
    assert_eq!(s.validate(&host, &ZerxValue::Null).unwrap_err().code, ErrorCode::LAZY_REENTRANCE());
}
