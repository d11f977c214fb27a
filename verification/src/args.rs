//! The argument key-value extractor: a single left-to-right scan over
//! the startup arguments with one pending-key slot. `--key` starts a
//! key; a following plain token becomes its value; a key followed by
//! another key or by the end of the arguments becomes a `true` flag;
//! a plain token with no pending key is discarded.

use vstd::prelude::*;
use crate::kv::KvMap;
use crate::text::{unquote, unquote_text};

verus! {

/// The flag value a key without a value receives.
pub open spec fn true_text() -> Seq<char> {
    "true"@
}

/// Whether an argument is a KEY token: it starts with `--`.
pub open spec fn is_key_token(a: Seq<char>) -> bool {
    a.len() >= 2 && a[0] == '-' && a[1] == '-'
}

/// One step of the scan: the mapping and pending key after reading
/// argument `a` in state `st`.
pub open spec fn args_step(
    st: (Map<Seq<char>, Seq<char>>, Option<Seq<char>>),
    a: Seq<char>,
) -> (Map<Seq<char>, Seq<char>>, Option<Seq<char>>) {
    if is_key_token(a) {
        let m = match st.1 {
            Some(k) => st.0.insert(k, true_text()),
            None => st.0,
        };
        (m, Some(unquote_text(a.skip(2))))
    } else {
        match st.1 {
            Some(k) => (st.0.insert(k, unquote_text(a)), None),
            None => st,
        }
    }
}

/// The state after scanning all of `args` from an empty start.
pub open spec fn args_scan(args: Seq<Seq<char>>) -> (Map<Seq<char>, Seq<char>>, Option<
    Seq<char>,
>)
    decreases args.len(),
{
    if args.len() == 0 {
        (Map::empty(), None)
    } else {
        args_step(args_scan(args.drop_last()), args.last())
    }
}

/// The mapping the arguments describe: the scan's mapping, with a
/// still-pending key committed as a `true` flag.
pub open spec fn args_kv_spec(args: Seq<Seq<char>>) -> Map<Seq<char>, Seq<char>> {
    let st = args_scan(args);
    match st.1 {
        Some(k) => st.0.insert(k, true_text()),
        None => st.0,
    }
}

/// The pending key's characters, if one is held.
spec fn opt_text(p: &Option<String>) -> Option<Seq<char>> {
    match p {
        Some(s) => Some(s@),
        None => None,
    }
}

/// Parse the startup arguments (program name already excluded) into a
/// mapping.
pub fn kv_from_args(args: &Vec<String>) -> (r: KvMap)
    ensures
        r.wf(),
        r@ == args_kv_spec(args.deep_view()),
{
    let mut kv = KvMap::new();
    let mut pending: Option<String> = None;
    let n = args.len();
    proof {
        assert(args.deep_view().take(0) =~= Seq::<Seq<char>>::empty());
    }
    let mut i: usize = 0;
    while i < n
        invariant
            0 <= i <= n,
            n == args@.len(),
            kv.wf(),
            args_scan(args.deep_view().take(i as int)) == (kv@, opt_text(&pending)),
        decreases n - i,
    {
        let a = args[i].as_str();
        let an = a.unicode_len();
        let is_key = an >= 2 && a.get_char(0) == '-' && a.get_char(1) == '-';
        let prev = pending;
        pending = None;
        if is_key {
            match prev {
                Some(k) => {
                    kv.insert(k, String::from_str("true"));
                },
                None => {},
            }
            let stripped = unquote(a.substring_char(2, an));
            pending = Some(String::from_str(stripped));
            proof {
                assert(a@.subrange(2, an as int) =~= a@.skip(2));
            }
        } else {
            match prev {
                Some(k) => {
                    let v = unquote(a);
                    kv.insert(k, String::from_str(v));
                },
                None => {},
            }
        }
        proof {
            let dv = args.deep_view();
            assert(dv[i as int] == args@[i as int]@);
            assert(dv.take(i as int + 1).drop_last() =~= dv.take(i as int));
            assert(dv.take(i as int + 1).last() == dv[i as int]);
        }
        i += 1;
    }
    proof {
        assert(args.deep_view().take(n as int) =~= args.deep_view());
    }
    match pending {
        Some(k) => {
            kv.insert(k, String::from_str("true"));
        },
        None => {},
    }
    kv
}

} // verus!
