//! Reading type testers from their text, such as `num`, `array<str>`,
//! `result<num><str>`, `fn<num num><bool>` or a generic name like `T`.
use crate::error::StckError;
use crate::text::{
    char_is_uppercase, chars_of, copy_range, eq_lit, find_char, find_pair, find_pair_from, has_prefix,
    has_suffix, is_upper, is_whitespace, is_ws, lemma_find_from, starts_with_lit, string_of,
};
use crate::types::{lemma_tts_view, tts_view, PartV, TypeTester, TypeV, TypedFnPart};
use vstd::prelude::*;

verus! {

/// The words of `s` separated by whitespace, scanned from position `i` with
/// the word `cur` being read and the words `acc` read so far.
pub open spec fn scan_words(s: Seq<char>, i: int, cur: Seq<char>, acc: Seq<Seq<char>>) -> Seq<Seq<char>>
    decreases s.len() - i,
{
    if i >= s.len() || i < 0 {
        if cur.len() > 0 {
            acc.push(cur)
        } else {
            acc
        }
    } else if is_ws(s[i]) {
        scan_words(s, i + 1, Seq::empty(), if cur.len() > 0 { acc.push(cur) } else { acc })
    } else {
        scan_words(s, i + 1, cur.push(s[i]), acc)
    }
}

/// The words of `s`, as `str::split_whitespace` gives them.
pub open spec fn words(s: Seq<char>) -> Seq<Seq<char>> {
    scan_words(s, 0, Seq::empty(), Seq::empty())
}

/// The type a text names, if any.
pub open spec fn parse_type(s: Seq<char>) -> Option<TypeV>
    decreases s.len(), 1nat, 0nat,
{
    if s == "?"@ {
        Some(TypeV::Any)
    } else if s == "char"@ {
        Some(TypeV::Char)
    } else if s == "string"@ || s == "str"@ {
        Some(TypeV::Str)
    } else if s == "num"@ {
        Some(TypeV::Num)
    } else if s == "bool"@ {
        Some(TypeV::Bool)
    } else if s == "list"@ || s == "array"@ {
        Some(TypeV::ArrayAny)
    } else if s == "map"@ {
        Some(TypeV::MapAny)
    } else if s == "result"@ {
        Some(TypeV::ResultAny)
    } else if s == "option"@ {
        Some(TypeV::OptionAny)
    } else if s == "fn"@ || s == "closure"@ {
        Some(TypeV::ClosureAny)
    } else if s.len() > 0 && is_upper(s[0]) {
        Some(TypeV::Generic(s))
    } else if parse_fn(s) is Some {
        parse_fn(s)
    } else if parse_result(s) is Some {
        parse_result(s)
    } else {
        parse_simple(s)
    }
}

/// `fn<inputs><outputs>`, each a list of types or `*`.
pub open spec fn parse_fn(s: Seq<char>) -> Option<TypeV>
    decreases s.len(), 0nat, 0nat,
{
    if s.len() >= 4 && has_prefix(s, "fn<"@) && s.last() == '>' {
        let tx = s.subrange(3, s.len() - 1);
        match find_char_spec(tx, '>') {
            Some(k) => if !(0 <= k < tx.len()) {
                None
            } else {
                let ins = tx.take(k);
                let outs = tx.skip(k + 1);
                if outs.len() > 0 && outs[0] == '<' {
                    match (parse_list(ins), parse_list(outs.skip(1))) {
                        (Some(a), Some(b)) => Some(TypeV::Closure(a, b)),
                        _ => None,
                    }
                } else {
                    None
                }
            },
            None => None,
        }
    } else {
        None
    }
}

/// The first position of `c` in `s`.
pub open spec fn find_char_spec(s: Seq<char>, c: char) -> Option<int> {
    crate::text::find_from(s, c, 0)
}

/// `result<ok><err>`.
pub open spec fn parse_result(s: Seq<char>) -> Option<TypeV>
    decreases s.len(), 0nat, 0nat,
{
    if s.len() >= 8 && has_prefix(s, "result<"@) && s.last() == '>' {
        let c = s.subrange(7, s.len() - 1);
        match find_pair_from(c, '>', '<', 0) {
            Some(k) => if 0 <= k && k + 2 <= c.len() {
                match (parse_type(c.take(k)), parse_type(c.skip(k + 2))) {
                    (Some(a), Some(b)) => Some(TypeV::Result(Box::new(a), Box::new(b))),
                    _ => None,
                }
            } else {
                None
            },
            None => None,
        }
    } else {
        None
    }
}

/// `option<t>`, `map<t>` and `array<t>`.
pub open spec fn parse_simple(s: Seq<char>) -> Option<TypeV>
    decreases s.len(), 0nat, 0nat,
{
    if s.len() > 0 && s.last() == '>' {
        let c = s.take(s.len() - 1);
        match find_char_spec(c, '<') {
            Some(k) => if 0 <= k < c.len() {
                let t = c.take(k);
                match parse_type(c.skip(k + 1)) {
                    Some(inner) => if t == "option"@ {
                        Some(TypeV::Option(Box::new(inner)))
                    } else if t == "map"@ {
                        Some(TypeV::Mapping(Box::new(inner)))
                    } else if t == "array"@ {
                        Some(TypeV::Array(Box::new(inner)))
                    } else {
                        None
                    },
                    None => None,
                }
            } else {
                None
            },
            None => None,
        }
    } else {
        None
    }
}

/// A list of types separated by whitespace, or `*` for any list.
pub open spec fn parse_list(t: Seq<char>) -> Option<PartV>
    decreases t.len(), 3nat, 0nat,
{
    if t == "*"@ {
        Some(PartV::Any)
    } else {
        match parse_words(words(t), t.len() as int) {
            Some(ts) => Some(PartV::Typed(ts)),
            None => None,
        }
    }
}

/// The types the words name; `None` when one names none. Only words no
/// longer than `b` are read.
pub open spec fn parse_words(ws: Seq<Seq<char>>, b: int) -> Option<Seq<TypeV>>
    decreases b, 2nat, ws.len(),
{
    if ws.len() == 0 {
        Some(Seq::empty())
    } else if ws.last().len() > b || b < 0 {
        None
    } else {
        match (parse_words(ws.drop_last(), b), parse_type(ws.last())) {
            (Some(ts), Some(t)) => Some(ts.push(t)),
            _ => None,
        }
    }
}

/// The words of `s`, as `str::split_whitespace` gives them.
pub fn split_words(s: &[char]) -> (r: Vec<Vec<char>>)
    ensures
        r@.len() == words(s@).len(),
        forall|i: int| 0 <= i < r@.len() ==> #[trigger] r@[i]@ == words(s@)[i],
{
    let mut acc: Vec<Vec<char>> = Vec::new();
    let mut cur: Vec<char> = Vec::new();
    let mut i: usize = 0;
    let ghost gacc: Seq<Seq<char>> = Seq::empty();
    while i < s.len()
        invariant
            i <= s@.len(),
            acc@.len() == gacc.len(),
            forall|k: int| 0 <= k < acc@.len() ==> #[trigger] acc@[k]@ == gacc[k],
            words(s@) == scan_words(s@, i as int, cur@, gacc),
        decreases s@.len() - i,
    {
        let c = s[i];
        if is_whitespace(c) {
            if cur.len() > 0 {
                let w = cur;
                proof {
                    gacc = gacc.push(w@);
                }
                acc.push(w);
                cur = Vec::new();
                assert(cur@ =~= Seq::<char>::empty());
            } else {
                assert(cur@ =~= Seq::<char>::empty());
            }
        } else {
            cur.push(c);
        }
        i += 1;
    }
    if cur.len() > 0 {
        proof {
            gacc = gacc.push(cur@);
        }
        acc.push(cur);
    }
    acc
}

/// Whether `a` is the text `lit`.
fn is_lit(a: &[char], lit: &str) -> (r: bool)
    ensures
        r == (a@ == lit@),
{
    eq_lit(a, lit)
}

/// The type a text names (see [`parse_type`]).
pub fn parse_type_chars(s: &[char]) -> (r: Option<TypeTester>)
    ensures
        match parse_type(s@) {
            Some(t) => r matches Some(x) && x@ == t,
            None => r is None,
        },
    decreases s@.len(), 1nat, 0nat,
{
    if is_lit(s, "?") {
        return Some(TypeTester::Any);
    }
    if is_lit(s, "char") {
        return Some(TypeTester::Char);
    }
    if is_lit(s, "string") || is_lit(s, "str") {
        return Some(TypeTester::Str);
    }
    if is_lit(s, "num") {
        return Some(TypeTester::Num);
    }
    if is_lit(s, "bool") {
        return Some(TypeTester::Bool);
    }
    if is_lit(s, "list") || is_lit(s, "array") {
        return Some(TypeTester::ArrayAny);
    }
    if is_lit(s, "map") {
        return Some(TypeTester::MapAny);
    }
    if is_lit(s, "result") {
        return Some(TypeTester::ResultAny);
    }
    if is_lit(s, "option") {
        return Some(TypeTester::OptionAny);
    }
    if is_lit(s, "fn") || is_lit(s, "closure") {
        return Some(TypeTester::ClosureAny);
    }
    if s.len() > 0 && char_is_uppercase(s[0]) {
        return Some(TypeTester::Generic(string_of(s)));
    }
    match parse_fn_chars(s) {
        Some(t) => {
            return Some(t);
        },
        None => {},
    }
    match parse_result_chars(s) {
        Some(t) => {
            return Some(t);
        },
        None => {},
    }
    parse_simple_chars(s)
}

fn parse_fn_chars(s: &[char]) -> (r: Option<TypeTester>)
    ensures
        match parse_fn(s@) {
            Some(t) => r matches Some(x) && x@ == t,
            None => r is None,
        },
    decreases s@.len(), 0nat, 0nat,
{
    if !(s.len() >= 4 && starts_with_lit(s, "fn<") && s[s.len() - 1] == '>') {
        return None;
    }
    let tx = copy_range(s, 3, s.len() - 1);
    match find_char(tx.as_slice(), '>') {
        Some(k) => {
            proof {
                lemma_find_from(tx@, '>', 0);
            }
            let ins = copy_range(tx.as_slice(), 0, k);
            let outs = copy_range(tx.as_slice(), k + 1, tx.len());
            proof {
                assert(ins@ =~= tx@.take(k as int));
                assert(outs@ =~= tx@.skip(k + 1));
            }
            if outs.len() > 0 && outs[0] == '<' {
                let outs2 = copy_range(outs.as_slice(), 1, outs.len());
                proof {
                    assert(outs2@ =~= outs@.skip(1));
                }
                let a = parse_list_chars(ins.as_slice());
                let b = parse_list_chars(outs2.as_slice());
                match (a, b) {
                    (Some(a), Some(b)) => Some(TypeTester::Closure(a, b)),
                    _ => None,
                }
            } else {
                None
            }
        },
        None => None,
    }
}

fn parse_result_chars(s: &[char]) -> (r: Option<TypeTester>)
    ensures
        match parse_result(s@) {
            Some(t) => r matches Some(x) && x@ == t,
            None => r is None,
        },
    decreases s@.len(), 0nat, 0nat,
{
    if !(s.len() >= 8 && starts_with_lit(s, "result<") && s[s.len() - 1] == '>') {
        return None;
    }
    let c = copy_range(s, 7, s.len() - 1);
    match find_pair(c.as_slice(), '>', '<') {
        Some(k) => {
            if k + 2 > c.len() {
                return None;
            }
            let l = copy_range(c.as_slice(), 0, k);
            let rt = copy_range(c.as_slice(), k + 2, c.len());
            proof {
                assert(l@ =~= c@.take(k as int));
                assert(rt@ =~= c@.skip(k + 2));
            }
            let a = parse_type_chars(l.as_slice());
            let b = parse_type_chars(rt.as_slice());
            match (a, b) {
                (Some(a), Some(b)) => Some(TypeTester::Result(Box::new((a, b)))),
                _ => None,
            }
        },
        None => None,
    }
}

fn parse_simple_chars(s: &[char]) -> (r: Option<TypeTester>)
    ensures
        match parse_simple(s@) {
            Some(t) => r matches Some(x) && x@ == t,
            None => r is None,
        },
    decreases s@.len(), 0nat, 0nat,
{
    if !(s.len() > 0 && s[s.len() - 1] == '>') {
        return None;
    }
    let c = copy_range(s, 0, s.len() - 1);
    proof {
        assert(c@ =~= s@.take(s@.len() - 1));
    }
    match find_char(c.as_slice(), '<') {
        Some(k) => {
            proof {
                lemma_find_from(c@, '<', 0);
            }
            let t = copy_range(c.as_slice(), 0, k);
            let inner = copy_range(c.as_slice(), k + 1, c.len());
            proof {
                assert(t@ =~= c@.take(k as int));
                assert(inner@ =~= c@.skip(k + 1));
            }
            match parse_type_chars(inner.as_slice()) {
                Some(ti) => {
                    if is_lit(t.as_slice(), "option") {
                        Some(TypeTester::Option(Box::new(ti)))
                    } else if is_lit(t.as_slice(), "map") {
                        Some(TypeTester::Mapping(Box::new(ti)))
                    } else if is_lit(t.as_slice(), "array") {
                        Some(TypeTester::Array(Box::new(ti)))
                    } else {
                        None
                    }
                },
                None => None,
            }
        },
        None => None,
    }
}

/// A list of types separated by whitespace, or `*` (see [`parse_list`]).
pub fn parse_list_chars(t: &[char]) -> (r: Option<TypedFnPart>)
    ensures
        match parse_list(t@) {
            Some(p) => r matches Some(x) && x@ == p,
            None => r is None,
        },
    decreases t@.len(), 3nat, 0nat,
{
    if is_lit(t, "*") {
        return Some(TypedFnPart::Any);
    }
    let ws = split_words(t);
    let b = t.len();
    let mut out: Vec<TypeTester> = Vec::new();
    let mut i: usize = 0;
    let ghost wv = words(t@);
    while i < ws.len()
        invariant
            i <= ws@.len(),
            t@ != "*"@,
            b == t@.len(),
            wv == words(t@),
            ws@.len() == wv.len(),
            forall|k: int| 0 <= k < ws@.len() ==> #[trigger] ws@[k]@ == wv[k],
            parse_words(wv.take(i as int), b as int) == Some(tts_view(out@)),
        decreases ws@.len() - i,
    {
        proof {
            assert(wv.take(i + 1).drop_last() =~= wv.take(i as int));
            assert(wv.take(i + 1).last() == wv[i as int]);
        }
        if ws[i].len() > b {
            proof {
                assert(parse_words(wv.take(i + 1), b as int) is None);
                lemma_parse_words_prefix(wv, b as int, i + 1);
            }
            return None;
        }
        proof {
            assert(decreases_to!(t@.len(), 3nat, 0nat => ws@[i as int]@.len(), 1nat, 0nat));
        }
        match parse_type_chars(ws[i].as_slice()) {
            Some(x) => {
                let ghost o = out@;
                out.push(x);
                proof {
                    assert(out@.drop_last() =~= o);
                }
            },
            None => {
                proof {
                    assert(parse_words(wv.take(i + 1), b as int) is None);
                    lemma_parse_words_prefix(wv, b as int, i + 1);
                }
                return None;
            },
        }
        i += 1;
    }
    assert(wv.take(wv.len() as int) =~= wv);
    Some(TypedFnPart::Typed(out))
}

/// When the words of a list all name types, so do those of each prefix.
proof fn lemma_parse_words_prefix(ws: Seq<Seq<char>>, b: int, k: int)
    requires
        0 <= k <= ws.len(),
    ensures
        parse_words(ws, b) is Some ==> parse_words(ws.take(k), b) is Some,
    decreases ws.len() - k,
{
    if k < ws.len() {
        assert(ws.drop_last().len() == ws.len() - 1);
        lemma_parse_words_prefix(ws.drop_last(), b, k);
        assert(ws.drop_last().take(k) =~= ws.take(k));
    } else {
        assert(ws.take(k) =~= ws);
    }
}

impl TypeTester {
    /// Reads a type from its text; a text that names no type is refused
    /// with [`StckError::UnknownType`].
    pub fn parse_text(s: &str) -> (r: Result<TypeTester, StckError>)
        ensures
            match parse_type(s@) {
                Some(t) => r matches Ok(x) && x@ == t,
                None => r matches Err(StckError::UnknownType(m)) && m@ == s@,
            },
    {
        let cs = chars_of(s);
        match parse_type_chars(cs.as_slice()) {
            Some(t) => Ok(t),
            None => Err(StckError::UnknownType(s.to_owned())),
        }
    }
}

impl std::str::FromStr for TypeTester {
    type Err = StckError;

    fn from_str(s: &str) -> (r: Result<TypeTester, StckError>)
        ensures
            match parse_type(s@) {
                Some(t) => r matches Ok(x) && x@ == t,
                None => r matches Err(StckError::UnknownType(m)) && m@ == s@,
            },
    {
        TypeTester::parse_text(s)
    }
}

} // verus!

verus! {

/// The pieces of `s` between single spaces, as `str::split(' ')` gives
/// them, scanned from position `i`.
pub open spec fn scan_pieces(s: Seq<char>, i: int, cur: Seq<char>, acc: Seq<Seq<char>>) -> Seq<Seq<char>>
    decreases s.len() - i,
{
    if i >= s.len() || i < 0 {
        acc.push(cur)
    } else if s[i] == ' ' {
        scan_pieces(s, i + 1, Seq::empty(), acc.push(cur))
    } else {
        scan_pieces(s, i + 1, cur.push(s[i]), acc)
    }
}

pub open spec fn pieces(s: Seq<char>) -> Seq<Seq<char>> {
    scan_pieces(s, 0, Seq::empty(), Seq::empty())
}

/// The types named by the pieces `ps` in order, or the first piece that
/// names none.
pub open spec fn parse_pieces(ps: Seq<Seq<char>>) -> Result<Seq<TypeV>, Seq<char>>
    decreases ps.len(),
{
    if ps.len() == 0 {
        Ok(Seq::empty())
    } else {
        match parse_type(ps[0]) {
            None => Err(ps[0]),
            Some(t) => match parse_pieces(ps.drop_first()) {
                Ok(ts) => Ok(seq![t] + ts),
                Err(e) => Err(e),
            },
        }
    }
}

/// The declaration of a generic type from its text `[*]name type...`:
/// its name, whether it is viral (no leading `*`) and the types it allows,
/// or the first piece that names no type.
pub open spec fn generic_decl(s: Seq<char>) -> Result<(Seq<char>, bool, Seq<TypeV>), Seq<char>> {
    let viral = !(s.len() > 0 && s[0] == '*');
    let cont = if viral { s } else { crate::text::trim(s.drop_first()) };
    let ps = pieces(cont);
    match parse_pieces(ps.drop_first()) {
        Ok(ts) => Ok((ps[0], viral, ts)),
        Err(e) => Err(e),
    }
}

/// The pieces of `s` between single spaces.
pub fn split_pieces(s: &[char]) -> (r: Vec<Vec<char>>)
    ensures
        r@.len() == pieces(s@).len(),
        forall|i: int| 0 <= i < r@.len() ==> #[trigger] r@[i]@ == pieces(s@)[i],
        r@.len() >= 1,
{
    let mut acc: Vec<Vec<char>> = Vec::new();
    let mut cur: Vec<char> = Vec::new();
    let mut i: usize = 0;
    let ghost gacc: Seq<Seq<char>> = Seq::empty();
    proof {
        lemma_scan_pieces_nonempty(s@, 0, Seq::empty(), Seq::empty());
    }
    while i < s.len()
        invariant
            i <= s@.len(),
            acc@.len() == gacc.len(),
            forall|k: int| 0 <= k < acc@.len() ==> #[trigger] acc@[k]@ == gacc[k],
            pieces(s@) == scan_pieces(s@, i as int, cur@, gacc),
        decreases s@.len() - i,
    {
        let c = s[i];
        if c == ' ' {
            let w = cur;
            proof {
                gacc = gacc.push(w@);
            }
            acc.push(w);
            cur = Vec::new();
            assert(cur@ =~= Seq::<char>::empty());
        } else {
            cur.push(c);
        }
        i += 1;
    }
    proof {
        gacc = gacc.push(cur@);
    }
    acc.push(cur);
    acc
}

proof fn lemma_scan_pieces_nonempty(s: Seq<char>, i: int, cur: Seq<char>, acc: Seq<Seq<char>>)
    ensures
        scan_pieces(s, i, cur, acc).len() >= acc.len() + 1,
    decreases s.len() - i,
{
    if i < s.len() && i >= 0 {
        if s[i] == ' ' {
            lemma_scan_pieces_nonempty(s, i + 1, Seq::empty(), acc.push(cur));
        } else {
            lemma_scan_pieces_nonempty(s, i + 1, cur.push(s[i]), acc);
        }
    }
}

impl crate::types::DefinedGenericBuilder {
    /// Reads the declaration of a generic type, `[*]name type...` (see
    /// [`generic_decl`]); a piece that names no type is refused with
    /// [`StckError::UnknownType`].
    pub fn parse_text(s: &[char]) -> (r: Result<crate::types::DefinedGenericBuilder, StckError>)
        ensures
            match generic_decl(s@) {
                Ok((name, viral, ts)) => r matches Ok(g) && g.name@ == name && g.viral == viral
                    && tts_view(g.allow@) == ts,
                Err(p) => r matches Err(StckError::UnknownType(m)) && m@ == p,
            },
    {
        let viral = !(s.len() > 0 && s[0] == '*');
        let cont = if viral {
            copy_range(s, 0, s.len())
        } else {
            let rest = copy_range(s, 1, s.len());
            proof {
                assert(rest@ =~= s@.drop_first());
            }
            crate::text::trim_chars(rest.as_slice())
        };
        proof {
            if viral {
                assert(cont@ =~= s@);
            }
            assert(cont@ == (if viral { s@ } else { crate::text::trim(s@.drop_first()) }));
        }
        let ps = split_pieces(cont.as_slice());
        let ghost pv = pieces(cont@);
        let mut allow: Vec<TypeTester> = Vec::new();
        let mut i: usize = 1;
        proof {
            assert(pv.drop_first().skip(0) =~= pv.drop_first());
            assert(tts_view(allow@) =~= Seq::<TypeV>::empty());
        }
        while i < ps.len()
            invariant
                1 <= i <= ps@.len(),
                viral == !(s@.len() > 0 && s@[0] == '*'),
                cont@ == (if viral { s@ } else { crate::text::trim(s@.drop_first()) }),
                pv == pieces(cont@),
                ps@.len() == pv.len(),
                forall|k: int| 0 <= k < ps@.len() ==> #[trigger] ps@[k]@ == pv[k],
                parse_pieces(pv.drop_first()) == match parse_pieces(pv.drop_first().skip(i - 1)) {
                    Ok(ts) => Ok(tts_view(allow@) + ts),
                    Err(e) => Err::<Seq<TypeV>, Seq<char>>(e),
                },
            decreases ps@.len() - i,
        {
            let ghost rest = pv.drop_first().skip(i - 1);
            proof {
                assert(rest[0] == pv[i as int]);
                assert(rest.drop_first() =~= pv.drop_first().skip(i as int));
            }
            match parse_type_chars(ps[i].as_slice()) {
                None => {
                    return Err(StckError::UnknownType(string_of(ps[i].as_slice())));
                },
                Some(t) => {
                    let ghost before = tts_view(allow@);
                    let ghost old_allow = allow@;
                    let ghost tv = t@;
                    allow.push(t);
                    proof {
                        assert(allow@.drop_last() =~= old_allow);
                        assert(tts_view(allow@) == before.push(tv));
                        assert forall|x: Seq<TypeV>| #![auto] before + (seq![tv] + x) =~= before.push(tv) + x by {}
                    }
                },
            }
            i += 1;
        }
        proof {
            assert(pv.drop_first().skip(i - 1).len() == 0);
            assert(tts_view(allow@) + Seq::<TypeV>::empty() =~= tts_view(allow@));
        }
        Ok(crate::types::DefinedGenericBuilder { name: string_of(ps[0].as_slice()), viral, allow })
    }
}

} // verus!
