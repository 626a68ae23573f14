//! Language injection: parsing sub-ranges of one file under a second
//! grammar.
//!
//! An [`Injection`] pairs a query over the outer language with the inner
//! language to parse captured content under. The query must capture the
//! sub-ranges to reinterpret under the name `injection.content`; each such
//! range is parsed with the inner grammar, and successful parses become
//! [`InjectedTree`]s addressable by their range in the outer source.

use vstd::prelude::*;
use vstd::utf8::encode_utf8;

use crate::range::Range;
use crate::resolver::{find_name_index, first_name_index};
use crate::text::bytes_eq;
use crate::ts::{
    capture_names, capture_names_in, matches_of, parse_result_of, parse_source,
    query_capture_names, query_compiles, query_matches, query_new, root_range_of,
    selected_captures, tree_within, RawCapture, RawMatch,
};

verus! {

/// Why constructing an [`Injection`] failed.
#[derive(Debug)]
pub enum InjectionErr {
    /// The injection query does not compile under the outer language.
    Query(tree_sitter::QueryError),
    /// The injection query compiles but has no `injection.content`
    /// capture.
    MissingCapture,
}

/// The rules to parse a language within a language: a query over the
/// outer grammar whose `injection.content` captures delimit the ranges
/// to reparse, and the inner grammar to parse them under.
pub struct Injection {
    /// The compiled injection query, over the outer language.
    pub query: tree_sitter::Query,
    /// The inner language the captured content is parsed as.
    pub language: tree_sitter::Language,
}

/// The name of the capture that delimits injected content.
pub open spec fn content_capture_name() -> Seq<u8> {
    encode_utf8("injection.content"@)
}

/// `true` iff some name in the table equals the bytes of `want`.
fn names_contain(names: &Vec<String>, want: &str) -> (r: bool)
    ensures
        r == names@.map_values(|s: String| encode_utf8(s@)).contains(encode_utf8(want@)),
{
    let ghost bnames = names@.map_values(|s: String| encode_utf8(s@));
    let mut k: usize = 0;
    while k < names.len()
        invariant
            k <= names@.len(),
            bnames == names@.map_values(|s: String| encode_utf8(s@)),
            forall|j: int| 0 <= j < k ==> bnames[j] != encode_utf8(want@),
        decreases names.len() - k,
    {
        if bytes_eq(names[k].as_str().as_bytes(), want.as_bytes()) {
            assert(bnames[k as int] == encode_utf8(want@));
            return true;
        }
        assert(bnames[k as int] != encode_utf8(want@));
        k += 1;
    }
    false
}

impl Injection {
    /// Compile `query` under the outer language and check that it
    /// captures `injection.content`; the captured content will be parsed
    /// as `target_language`.
    ///
    /// Fails with a query error when the query does not compile, and
    /// with [`InjectionErr::MissingCapture`] when it compiles but never
    /// captures `injection.content`.
    pub fn new(
        query: &str,
        source_language: tree_sitter::Language,
        target_language: tree_sitter::Language,
    ) -> (r: Result<Injection, InjectionErr>)
        ensures
            r is Ok <==> (query_compiles(source_language, query@) && capture_names_in(
                query@,
            ).contains(content_capture_name())),
            r matches Ok(inj) ==> {
                &&& inj.query == crate::ts::compiled_query(source_language, query@)
                &&& inj.language == target_language
                &&& query_capture_names(inj.query) == capture_names_in(query@)
                &&& capture_names_in(query@).contains(content_capture_name())
            },
            r matches Err(e) ==> match e {
                InjectionErr::Query(_) => !query_compiles(source_language, query@),
                InjectionErr::MissingCapture => query_compiles(source_language, query@)
                    && !capture_names_in(query@).contains(content_capture_name()),
            },
    {
        let compiled = match query_new(source_language, query) {
            Ok(q) => q,
            Err(e) => {
                return Err(InjectionErr::Query(e));
            },
        };
        let names = capture_names(&compiled);
        if names_contain(&names, "injection.content") {
            Ok(Injection { query: compiled, language: target_language })
        } else {
            Err(InjectionErr::MissingCapture)
        }
    }
}

/// A parsed sub-tree of the outer source: the inner syntax tree and the
/// range of the outer source it was parsed from.
pub struct InjectedTree {
    /// The inner syntax tree.
    pub tree: tree_sitter::Tree,
    /// The range of the outer source the tree was parsed from; inner
    /// positions are relative to its start.
    pub original_range: Range,
}

/// An injected tree is sound for an outer source of length `n`: its
/// range is a well-formed sub-range of the outer source, and its inner
/// tree ends exactly at the range's byte count — it covers the injected
/// bytes, less any leading text the inner lexer skipped.
pub open spec fn injected_tree_ok(t: InjectedTree, n: int) -> bool {
    &&& t.original_range.wf()
    &&& t.original_range.wire_safe()
    &&& t.original_range.end_byte <= n
    &&& root_range_of(t.tree).end_byte == t.original_range.end_byte
        - t.original_range.start_byte
}

/// The trees that parsing each captured sub-range of `caps` under
/// `lang` yields, in capture order, keeping the parses that succeed.
pub open spec fn injected_from_caps(
    lang: tree_sitter::Language,
    caps: Seq<RawCapture>,
    src: Seq<u8>,
) -> Seq<InjectedTree>
    decreases caps.len(),
{
    if caps.len() == 0 {
        Seq::empty()
    } else {
        let c = caps[0];
        let rest = injected_from_caps(lang, caps.drop_first(), src);
        match parse_result_of(
            lang,
            src.subrange(c.range.start_byte as int, c.range.end_byte as int),
        ) {
            Some(t) => seq![(InjectedTree { tree: t, original_range: c.range })] + rest,
            None => rest,
        }
    }
}

/// Parsing captured sub-ranges distributes over concatenation of the
/// capture lists.
proof fn lemma_injected_concat(
    lang: tree_sitter::Language,
    a: Seq<RawCapture>,
    b: Seq<RawCapture>,
    src: Seq<u8>,
)
    ensures
        injected_from_caps(lang, a + b, src) == injected_from_caps(lang, a, src)
            + injected_from_caps(lang, b, src),
    decreases a.len(),
{
    if a.len() == 0 {
        assert(a + b =~= b);
        assert(injected_from_caps(lang, a, src) + injected_from_caps(lang, b, src)
            =~= injected_from_caps(lang, b, src));
    } else {
        assert((a + b).drop_first() =~= a.drop_first() + b);
        assert((a + b)[0] == a[0]);
        lemma_injected_concat(lang, a.drop_first(), b, src);
        assert(injected_from_caps(lang, a + b, src) =~= injected_from_caps(lang, a, src)
            + injected_from_caps(lang, b, src));
    }
}

/// What one injection contributes to a file's context: the successful
/// parses of its `injection.content` captures, in capture order; nothing
/// when the compiled query does not use that capture name.
pub open spec fn injection_result(
    inj: Injection,
    t: tree_sitter::Tree,
    src: Seq<u8>,
) -> Seq<InjectedTree> {
    match first_name_index(query_capture_names(inj.query), content_capture_name()) {
        Some(i) => injected_from_caps(
            inj.language,
            selected_captures(matches_of(inj.query, t, src), Some(i)),
            src,
        ),
        None => Seq::empty(),
    }
}

/// Run one injection over the outer tree: parse every sub-range the
/// query captures as `injection.content` under the inner language,
/// appending the parses that succeed, in capture order. Sub-ranges the
/// inner grammar cannot parse are skipped silently.
pub fn run_injection(
    injection: &Injection,
    outer_tree: &tree_sitter::Tree,
    src: &[u8],
    out: &mut Vec<InjectedTree>,
)
    requires
        tree_within(*outer_tree, src@.len() as int),
        src@.len() < 0x1_0000_0000,
        forall|i: int|
            0 <= i < old(out)@.len() ==> injected_tree_ok(#[trigger] old(out)@[i], src@.len() as int),
    ensures
        final(out)@ == old(out)@ + injection_result(*injection, *outer_tree, src@),
        forall|i: int|
            0 <= i < final(out)@.len() ==> injected_tree_ok(
                #[trigger] final(out)@[i],
                src@.len() as int,
            ),
{
    let names = capture_names(&injection.query);
    let ghost table = query_capture_names(injection.query);
    let content_idx = match find_name_index(&names, "injection.content") {
        Some(i) => i,
        None => {
            proof {
                assert(out@ =~= old(out)@ + injection_result(*injection, *outer_tree, src@));
            }
            return ;
        },
    };
    let matches = query_matches(&injection.query, outer_tree, src);
    let ghost msv = matches@.map_values(|m: RawMatch| m.captures@);
    let ghost lang = injection.language;
    let ghost total = injected_from_caps(
        lang,
        selected_captures(msv, Some(content_idx)),
        src@,
    );
    proof {
        assert(msv.skip(0) =~= msv);
    }
    let mut m: usize = 0;
    while m < matches.len()
        invariant
            m <= matches@.len(),
            msv == matches@.map_values(|mm: RawMatch| mm.captures@),
            lang == injection.language,
            src@.len() < 0x1_0000_0000,
            old(out)@ + total == out@ + injected_from_caps(
                lang,
                selected_captures(msv.skip(m as int), Some(content_idx)),
                src@,
            ),
            forall|i: int|
                0 <= i < out@.len() ==> injected_tree_ok(#[trigger] out@[i], src@.len() as int),
            forall|i: int, j: int|
                0 <= i < matches@.len() && 0 <= j < matches@[i].captures@.len()
                    ==> crate::ts::capture_ok(
                    #[trigger] matches@[i].captures@[j],
                    src@.len() as int,
                ),
        decreases matches.len() - m,
    {
        let caps = &matches[m].captures;
        proof {
            assert(msv.skip(m as int)[0] == caps@);
            assert(msv.skip(m as int).drop_first() =~= msv.skip(m as int + 1));
            assert(caps@.skip(0) =~= caps@);
            assert(selected_captures(msv.skip(m as int), Some(content_idx))
                == crate::ts::filter_captures(caps@, Some(content_idx)) + selected_captures(
                msv.skip(m as int + 1),
                Some(content_idx),
            ));
            lemma_injected_concat(
                lang,
                crate::ts::filter_captures(caps@, Some(content_idx)),
                selected_captures(msv.skip(m as int + 1), Some(content_idx)),
                src@,
            );
        }
        let mut c: usize = 0;
        while c < caps.len()
            invariant
                c <= caps@.len(),
                msv == matches@.map_values(|mm: RawMatch| mm.captures@),
                m < matches@.len(),
                caps == &matches[m as int].captures,
                lang == injection.language,
                src@.len() < 0x1_0000_0000,
                old(out)@ + total == out@ + injected_from_caps(
                    lang,
                    crate::ts::filter_captures(caps@.skip(c as int), Some(content_idx)),
                    src@,
                ) + injected_from_caps(
                    lang,
                    selected_captures(msv.skip(m as int + 1), Some(content_idx)),
                    src@,
                ),
                forall|i: int|
                    0 <= i < out@.len() ==> injected_tree_ok(#[trigger] out@[i], src@.len() as int),
                forall|j: int|
                    0 <= j < caps@.len() ==> crate::ts::capture_ok(
                        #[trigger] caps@[j],
                        src@.len() as int,
                    ),
            decreases caps.len() - c,
        {
            let cap = caps[c];
            let ghost fc = crate::ts::filter_captures(caps@.skip(c as int), Some(content_idx));
            let ghost fc1 = crate::ts::filter_captures(caps@.skip(c as int + 1), Some(content_idx));
            proof {
                assert(caps@.skip(c as int)[0] == cap);
                assert(caps@.skip(c as int).drop_first() =~= caps@.skip(c as int + 1));
            }
            if cap.index == content_idx {
                proof {
                    assert(fc == seq![cap] + fc1);
                    lemma_injected_concat(lang, seq![cap], fc1, src@);
                    assert(seq![cap].drop_first() =~= Seq::<RawCapture>::empty());
                    assert(injected_from_caps(lang, Seq::<RawCapture>::empty(), src@)
                        == Seq::<InjectedTree>::empty());
                    assert(injected_from_caps(lang, seq![cap].drop_first(), src@)
                        == Seq::<InjectedTree>::empty());
                }
                let slice = &src[cap.range.start_byte..cap.range.end_byte];
                assert(slice@ =~= src@.subrange(
                    cap.range.start_byte as int,
                    cap.range.end_byte as int,
                ));
                let ghost out0 = out@;
                match parse_source(injection.language, slice) {
                    Some(tree) => {
                        assert(slice@.len() == cap.range.end_byte - cap.range.start_byte);
                        proof {
                            assert(parse_result_of(
                                lang,
                                src@.subrange(
                                    cap.range.start_byte as int,
                                    cap.range.end_byte as int,
                                ),
                            ) == Some(tree));
                        }
                        let ghost single = injected_from_caps(lang, seq![cap], src@);
                        out.push(InjectedTree { tree, original_range: cap.range });
                        proof {
                            assert(single =~= seq![
                                (InjectedTree { tree, original_range: cap.range }),
                            ]);
                            assert(out@ =~= out0 + single);
                            assert(out0 + injected_from_caps(lang, fc, src@) =~= (out0 + single)
                                + injected_from_caps(lang, fc1, src@));
                        }
                    },
                    None => {
                        proof {
                            assert(injected_from_caps(lang, seq![cap], src@)
                                =~= Seq::<InjectedTree>::empty());
                            assert(out0 + injected_from_caps(lang, fc, src@) =~= out0
                                + injected_from_caps(lang, fc1, src@));
                        }
                    },
                }
            } else {
                proof {
                    assert(fc == fc1);
                }
            }
            c += 1;
        }
        proof {
            assert(caps@.skip(caps@.len() as int) =~= Seq::<RawCapture>::empty());
        }
        m += 1;
    }
    proof {
        assert(msv.skip(msv.len() as int) =~= Seq::<Seq<RawCapture>>::empty());
        assert(out@ =~= old(out)@ + total);
    }
}

} // verus!
