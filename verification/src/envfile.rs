//! The file key-value extractor: parse the contents of a `.env`-style
//! key-value file into a mapping. Each line is trimmed; blank lines and
//! lines with zero or more than one `=` are dropped; key and value are
//! trimmed, the value loses one layer of surrounding quotes, and pairs
//! with an empty key or value are dropped. Later duplicate keys
//! overwrite earlier ones.

use vstd::prelude::*;
use crate::kv::KvMap;
use crate::text::{find_ch, find_char, lemma_find_ch, trim, trim_text, unquote, unquote_text};

verus! {

/// The key-value pair a single line contributes, if any.
pub open spec fn line_kv(line: Seq<char>) -> Option<(Seq<char>, Seq<char>)> {
    let t = trim_text(line);
    if t.len() == 0 {
        None
    } else {
        let p = find_ch(t, '=');
        if p < 0 {
            None
        } else if find_ch(t.subrange(p + 1, t.len() as int), '=') >= 0 {
            None
        } else {
            let k = trim_text(t.subrange(0, p));
            let v = unquote_text(trim_text(t.subrange(p + 1, t.len() as int)));
            if k.len() == 0 || v.len() == 0 {
                None
            } else {
                Some((k, v))
            }
        }
    }
}

/// The mapping `m` after one line: insert the line's pair, if it has
/// one.
pub open spec fn apply_line_kv(m: Map<Seq<char>, Seq<char>>, line: Seq<char>) -> Map<
    Seq<char>,
    Seq<char>,
> {
    match line_kv(line) {
        Some(p) => m.insert(p.0, p.1),
        None => m,
    }
}

/// The lines of `s`: the segments between `\n` characters. The final
/// segment is the remainder after the last `\n`, so the empty string
/// has the single empty line.
pub open spec fn file_lines(s: Seq<char>) -> Seq<Seq<char>>
    decreases s.len(),
{
    let p = find_ch(s, '\n');
    if 0 <= p < s.len() {
        seq![s.subrange(0, p)] + file_lines(s.subrange(p + 1, s.len() as int))
    } else {
        seq![s]
    }
}

/// Fold the lines over `m`, front to back.
pub open spec fn fold_lines(m: Map<Seq<char>, Seq<char>>, ls: Seq<Seq<char>>) -> Map<
    Seq<char>,
    Seq<char>,
>
    decreases ls.len(),
{
    if ls.len() == 0 {
        m
    } else {
        fold_lines(apply_line_kv(m, ls[0]), ls.skip(1))
    }
}

/// The mapping the file contents `s` describe.
pub open spec fn parse_env_spec(s: Seq<char>) -> Map<Seq<char>, Seq<char>> {
    fold_lines(Map::empty(), file_lines(s))
}

/// Feed one line into the mapping, as `apply_line_kv` describes.
fn apply_line(kv: &mut KvMap, line: &str)
    requires
        old(kv).wf(),
    ensures
        final(kv).wf(),
        final(kv)@ == apply_line_kv(old(kv)@, line@),
{
    let t = trim(line);
    let tn = t.unicode_len();
    if tn == 0 {
        return ;
    }
    let eq_pos = match find_char(t, '=') {
        Some(p) => p,
        None => {
            return ;
        },
    };
    proof {
        lemma_find_ch(t@, '=');
    }
    let rest = t.substring_char(eq_pos + 1, tn);
    match find_char(rest, '=') {
        Some(_) => {
            return ;
        },
        None => {},
    }
    let key_part = trim(t.substring_char(0, eq_pos));
    let val_part = unquote(trim(rest));
    if key_part.unicode_len() == 0 {
        return ;
    }
    if val_part.unicode_len() == 0 {
        return ;
    }
    kv.insert(String::from_str(key_part), String::from_str(val_part));
}

/// Parse the contents of a key-value file into a mapping.
pub fn parse_env_file(contents: &str) -> (r: KvMap)
    ensures
        r.wf(),
        r@ == parse_env_spec(contents@),
{
    let n = contents.unicode_len();
    let mut kv = KvMap::new();
    let mut pos: usize = 0;
    proof {
        assert(contents@.subrange(0, n as int) =~= contents@);
    }
    loop
        invariant_except_break
            0 <= pos <= n,
            n == contents@.len(),
            kv.wf(),
            fold_lines(kv@, file_lines(contents@.subrange(pos as int, n as int))) == parse_env_spec(
                contents@,
            ),
        ensures
            kv.wf(),
            kv@ == parse_env_spec(contents@),
        decreases n - pos,
    {
        let ghost rest = contents@.subrange(pos as int, n as int);
        let mut j: usize = pos;
        while j < n && contents.get_char(j) != '\n'
            invariant
                pos <= j <= n,
                n == contents@.len(),
                forall|m: int| pos <= m < j ==> contents@[m] != '\n',
            decreases n - j,
        {
            j += 1;
        }
        let line = contents.substring_char(pos, j);
        proof {
            lemma_find_ch(rest, '\n');
            assert(forall|m: int| 0 <= m < rest.len() ==> rest[m] == contents@[pos + m]);
            if j < n {
                assert(rest[j - pos] == '\n');
                let p = find_ch(rest, '\n');
                assert(0 <= p < rest.len());
                assert(p == j - pos);
                assert(rest.subrange(0, p) =~= line@);
                assert(rest.subrange(p + 1, rest.len() as int) =~= contents@.subrange(
                    j + 1,
                    n as int,
                ));
                assert(file_lines(rest) == seq![line@] + file_lines(
                    contents@.subrange(j + 1, n as int),
                ));
            } else {
                assert(forall|m: int| 0 <= m < rest.len() ==> rest[m] != '\n');
                assert(find_ch(rest, '\n') == -1);
                assert(rest =~= line@);
                assert(file_lines(rest) == seq![line@]);
            }
        }
        apply_line(&mut kv, line);
        if j == n {
            proof {
                let ls = seq![line@];
                assert(ls.len() == 1);
                assert(ls[0] == line@);
                assert(ls.skip(1) =~= Seq::<Seq<char>>::empty());
                assert(fold_lines(kv@, ls.skip(1)) == kv@);
            }
            break ;
        }
        proof {
            let tail = file_lines(contents@.subrange(j + 1, n as int));
            let ls = seq![line@] + tail;
            assert(ls[0] == line@);
            assert(ls.skip(1) =~= tail);
        }
        pos = j + 1;
    }
    kv
}

} // verus!
