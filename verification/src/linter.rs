//! The linter: configuration and the per-file analysis driver.
//!
//! A [`Linter`] holds the outer grammar, the validators, an optional
//! scope query, the injections, the ignore patterns and the extension
//! filter. Per file it parses the source, builds the [`Context`], runs
//! every validator in order, and concatenates their occurrences in
//! validator order.

use vstd::prelude::*;
use vstd::utf8::encode_utf8;

use crate::context::Context;
use crate::err::AnalysisErr;
use crate::harness::{
    annotation_matches, annotations_match, annotations_match_spec, annotations_spec,
    extract_annotations_bytes, trim_indent_bytes, trim_indent_spec,
};
use crate::injection::{run_injection, InjectedTree, Injection};
use crate::lint::{occurrences_ok, Occurrence};
use crate::report::Issue;
use crate::resolver::{scope_res_generic, scope_resolution_spec};
use crate::rules::{analyze_matches, Validator};
use crate::rx::{regex_set_is_match, regex_set_match, regex_set_patterns};
use crate::text::push_str_bytes;
use crate::ts::{
    compiled_query, parse_result_of, parse_source, query_compiles, query_new, tree_within,
};

verus! {

/// The entry point into running an analysis: the grammar, the rules, and
/// the side-channel configuration they need.
pub struct Linter {
    /// The rules, invoked once per file, in order.
    pub validators: Vec<Validator>,
    /// The outer grammar used to parse each file.
    pub language: tree_sitter::Language,
    /// The comment prefix of the language, used by the fixture harness.
    pub comment_str: String,
    /// The scope query, when scope resolution is wanted.
    pub scopes: Option<String>,
    /// The language injections.
    pub injections: Vec<Injection>,
    /// Ignore patterns; a file whose path matches any of them is skipped.
    pub ignores: Vec<String>,
    /// Only files with this extension are analyzed.
    pub extension: String,
}

impl Linter {
    /// A linter for `language` with no rules, comment prefix `//`, no
    /// scope query, no injections, no ignores, and an empty extension
    /// filter.
    pub fn new(language: tree_sitter::Language) -> (l: Linter)
        ensures
            l.language == language,
            l.validators@.len() == 0,
            l.comment_str@ == "//"@,
            l.scopes is None,
            l.injections@.len() == 0,
            l.ignores@.len() == 0,
            l.extension@ == Seq::<char>::empty(),
    {
        Linter {
            validators: Vec::new(),
            language,
            comment_str: "//".to_owned(),
            scopes: None,
            injections: Vec::new(),
            ignores: Vec::new(),
            extension: String::new(),
        }
    }

    /// Replace this linter's language.
    pub fn language(self, language: tree_sitter::Language) -> (l: Linter)
        ensures
            l == (Linter { language, ..self }),
    {
        Linter { language, ..self }
    }

    /// Add a rule to this linter.
    pub fn validator(self, validator: Validator) -> (l: Linter)
        ensures
            l.validators@ == self.validators@.push(validator),
            l == (Linter { validators: l.validators, ..self }),
    {
        let mut validators = self.validators;
        validators.push(validator);
        Linter { validators, ..self }
    }

    /// Replace this linter's rules.
    pub fn validators(self, validators: &[Validator]) -> (l: Linter)
        ensures
            l.validators@ == validators@,
            l == (Linter { validators: l.validators, ..self }),
    {
        let mut vs: Vec<Validator> = Vec::new();
        let mut k: usize = 0;
        while k < validators.len()
            invariant
                k <= validators@.len(),
                vs@ =~= validators@.subrange(0, k as int),
        decreases validators@.len() - k,
        {
            vs.push(validators[k]);
            k += 1;
        }
        proof {
            assert(vs@ =~= validators@);
        }
        Linter { validators: vs, ..self }
    }

    /// Set the comment prefix for single-line comments; the fixture
    /// harness uses it to find annotations.
    pub fn comment_str(self, comment_str: &str) -> (l: Linter)
        ensures
            l.comment_str@ == comment_str@,
            l == (Linter { comment_str: l.comment_str, ..self }),
    {
        Linter { comment_str: comment_str.to_owned(), ..self }
    }

    /// Set the scope query, enabling the scope tree in the context.
    pub fn scopes(self, queries: &str) -> (l: Linter)
        ensures
            l.scopes matches Some(q) && q@ == queries@,
            l == (Linter { scopes: l.scopes, ..self }),
    {
        Linter { scopes: Some(queries.to_owned()), ..self }
    }

    /// Add a language injection.
    pub fn injection(self, injection: Injection) -> (l: Linter)
        ensures
            l.injections@ == self.injections@.push(injection),
            l == (Linter { injections: l.injections, ..self }),
    {
        let mut injections = self.injections;
        injections.push(injection);
        Linter { injections, ..self }
    }

    /// Add an ignore pattern; files whose paths match are not analyzed.
    pub fn ignore(self, regex: &str) -> (l: Linter)
        ensures
            l.ignores@.len() == self.ignores@.len() + 1,
            forall|i: int|
                0 <= i < self.ignores@.len() ==> l.ignores@[i] == #[trigger] self.ignores@[i],
            l.ignores@.last()@ == regex@,
            l == (Linter { ignores: l.ignores, ..self }),
    {
        let mut ignores = self.ignores;
        ignores.push(regex.to_owned());
        Linter { ignores, ..self }
    }

    /// Replace the ignore patterns.
    pub fn ignores(self, regex_set: &[&str]) -> (l: Linter)
        ensures
            l.ignores@.len() == regex_set@.len(),
            forall|i: int| 0 <= i < regex_set@.len() ==> l.ignores@[i]@ == #[trigger] regex_set@[i]@,
            l == (Linter { ignores: l.ignores, ..self }),
    {
        let mut ignores: Vec<String> = Vec::new();
        let mut k: usize = 0;
        while k < regex_set.len()
            invariant
                k <= regex_set@.len(),
                ignores@.len() == k,
                forall|i: int| 0 <= i < k ==> ignores@[i]@ == #[trigger] regex_set@[i]@,
            decreases regex_set@.len() - k,
        {
            ignores.push(regex_set[k].to_owned());
            k += 1;
        }
        Linter { ignores, ..self }
    }

    /// Set the file-extension filter, e.g. `rb`.
    pub fn extension(self, extension: &str) -> (l: Linter)
        ensures
            l.extension@ == extension@,
            l == (Linter { extension: l.extension, ..self }),
    {
        Linter { extension: extension.to_owned(), ..self }
    }

    /// The analysis of a file with this configuration fails: the source
    /// is too long to parse, the grammar cannot parse it, or the scope
    /// query does not compile.
    pub open spec fn analysis_fails(self, src: Seq<u8>) -> bool {
        ||| src.len() >= 0x1_0000_0000
        ||| parse_result_of(self.language, src) is None
        ||| match self.scopes {
            Some(q) => !query_compiles(self.language, q@),
            None => false,
        }
    }

    /// What the per-file context holds: the scope tree is the fold of
    /// the scope query's captures when a scope query is set and absent
    /// when none is, and the injected trees are each configured
    /// injection's results, in order.
    pub open spec fn context_post(
        self,
        c: Context,
        tree: tree_sitter::Tree,
        src: Seq<u8>,
    ) -> bool {
        &&& match self.scopes {
            None => c.scope_tree is None,
            Some(q) => c.scope_tree matches Some(t) && t@ == scope_resolution_spec(
                compiled_query(self.language, q@),
                tree,
                src,
            ),
        }
        &&& c.injected_trees@ == injections_post(self.injections@, tree, src)
    }

    /// Build the per-file context: compile and run the scope query, when
    /// one is configured, and run every injection. Fails exactly when a
    /// scope query is configured and does not compile under the linter's
    /// grammar.
    pub fn build_context(&self, tree: &tree_sitter::Tree, src: &[u8]) -> (r: Result<
        Context,
        tree_sitter::QueryError,
    >)
        requires
            tree_within(*tree, src@.len() as int),
            src@.len() < 0x1_0000_0000,
        ensures
            r is Err <==> (self.scopes matches Some(q) && !query_compiles(self.language, q@)),
            r matches Ok(c) ==> c.wf(src@.len() as int) && self.context_post(c, *tree, src@),
    {
        let scope_tree = match &self.scopes {
            Some(q) => match query_new(self.language, q.as_str()) {
                Ok(query) => Some(scope_res_generic(&query, tree, src)),
                Err(e) => {
                    return Err(e);
                },
            },
            None => None,
        };
        let mut injected_trees: Vec<InjectedTree> = Vec::new();
        proof {
            assert(self.injections@.skip(0) =~= self.injections@);
            assert(Seq::<InjectedTree>::empty() + injections_post(
                self.injections@.skip(0),
                *tree,
                src@,
            ) =~= injections_post(self.injections@, *tree, src@));
        }
        let mut k: usize = 0;
        while k < self.injections.len()
            invariant
                k <= self.injections@.len(),
                tree_within(*tree, src@.len() as int),
                src@.len() < 0x1_0000_0000,
                injected_trees@ + injections_post(self.injections@.skip(k as int), *tree, src@)
                    == injections_post(self.injections@, *tree, src@),
                forall|i: int|
                    0 <= i < injected_trees@.len() ==> crate::injection::injected_tree_ok(
                        #[trigger] injected_trees@[i],
                        src@.len() as int,
                    ),
            decreases self.injections.len() - k,
        {
            proof {
                assert(self.injections@.skip(k as int)[0] == self.injections@[k as int]);
                assert(self.injections@.skip(k as int).drop_first() =~= self.injections@.skip(
                    k as int + 1,
                ));
            }
            let ghost before = injected_trees@;
            run_injection(&self.injections[k], tree, src, &mut injected_trees);
            proof {
                assert(injected_trees@ + injections_post(
                    self.injections@.skip(k as int + 1),
                    *tree,
                    src@,
                ) =~= injections_post(self.injections@, *tree, src@));
            }
            k += 1;
        }
        proof {
            assert(self.injections@.skip(self.injections@.len() as int)
                =~= Seq::<Injection>::empty());
            assert(injected_trees@ =~= injections_post(self.injections@, *tree, src@));
        }
        Ok(Context { scope_tree, injected_trees })
    }

    /// Analyze one file's source: parse it, build the context, and run
    /// every validator in order, concatenating their occurrences in
    /// validator order.
    ///
    /// Fails with [`AnalysisErr::Parse`] when the source is too long or
    /// the grammar cannot parse it, and with [`AnalysisErr::Query`] when
    /// the scope query does not compile — exactly the cases of
    /// [`Linter::analysis_fails`]. On success the occurrences decompose,
    /// in order, into what each validator's run returns over the parsed
    /// tree and the built context; by [`lemma_analysis_deterministic`]
    /// any two results meeting this description agree observably, so
    /// running the analysis twice on one file yields identical results.
    pub fn analyze(&self, src: &[u8]) -> (r: Result<Vec<Occurrence>, AnalysisErr>)
        ensures
            r is Err <==> self.analysis_fails(src@),
            r matches Ok(occs) ==> ({
                let tree = parse_result_of(self.language, src@)->0;
                &&& occurrences_ok(occs@, src@.len() as int)
                &&& exists|c: Context|
                    #![auto]
                    c.wf(src@.len() as int) && self.context_post(c, tree, src@) && analyze_matches(
                        self.validators@,
                        occs@,
                        tree,
                        c,
                        src@,
                    )
            }),
    {
        if src.len() as u64 >= 0x1_0000_0000u64 {
            return Err(AnalysisErr::Parse);
        }
        let tree = match parse_source(self.language, src) {
            Some(t) => t,
            None => {
                return Err(AnalysisErr::Parse);
            },
        };
        let context = match self.build_context(&tree, src) {
            Ok(c) => c,
            Err(e) => {
                return Err(AnalysisErr::Query(e));
            },
        };
        let ghost gtree = parse_result_of(self.language, src@)->0;
        proof {
            assert(gtree == tree);
        }
        let mut occurrences: Vec<Occurrence> = Vec::new();
        proof {
            assert(self.validators@.subrange(0, 0) =~= Seq::<Validator>::empty());
        }
        let mut k: usize = 0;
        while k < self.validators.len()
            invariant
                k <= self.validators@.len(),
                tree_within(tree, src@.len() as int),
                gtree == tree,
                context.wf(src@.len() as int),
                occurrences_ok(occurrences@, src@.len() as int),
                analyze_matches(
                    self.validators@.subrange(0, k as int),
                    occurrences@,
                    tree,
                    context,
                    src@,
                ),
            decreases self.validators.len() - k,
        {
            let f = self.validators[k];
            let ghost kk = k as int;
            let mut out = f.run(&tree, &context, src);
            let ghost outg = out@;
            let ghost before = occurrences@;
            occurrences.append(&mut out);
            proof {
                assert forall|j: int| 0 <= j < occurrences@.len() implies {
                    &&& (#[trigger] occurrences@[j]).at.wf()
                    &&& occurrences@[j].at.wire_safe()
                    &&& occurrences@[j].at.end_byte <= src@.len()
                } by {
                    if j < before.len() {
                        assert(occurrences@[j] == before[j]);
                    }
                }
                crate::rules::lemma_analyze_matches_snoc(
                    self.validators@.subrange(0, kk),
                    before,
                    f,
                    outg,
                    tree,
                    context,
                    src@,
                );
                assert(self.validators@.subrange(0, kk).push(f) =~= self.validators@.subrange(
                    0,
                    kk + 1,
                ));
                assert(before + outg =~= occurrences@);
            }
            k += 1;
        }
        proof {
            assert(self.validators@.subrange(0, self.validators@.len() as int)
                =~= self.validators@);
        }
        Ok(occurrences)
    }

    /// Analyze one file and serialize its occurrences as issues at
    /// `path`: one issue per occurrence, in order, with this occurrence's
    /// code and message, the given path, and the 0-based points moved to
    /// 1-based wire positions. Fails exactly when the analysis fails.
    pub fn analyze_to_issues(&self, path: &str, src: &[u8]) -> (r: Result<Vec<Issue>, AnalysisErr>)
        ensures
            r is Err <==> self.analysis_fails(src@),
            r matches Ok(issues) ==> ({
                let tree = parse_result_of(self.language, src@)->0;
                exists|occs: Seq<Occurrence>, c: Context|
                    #![auto]
                    {
                        &&& occurrences_ok(occs, src@.len() as int)
                        &&& c.wf(src@.len() as int)
                        &&& self.context_post(c, tree, src@)
                        &&& analyze_matches(self.validators@, occs, tree, c, src@)
                        &&& issues_correspond(occs, issues@, path@)
                    }
            }),
            r matches Ok(issues) ==> forall|k: int|
                0 <= k < issues@.len() ==> {
                    let p = (#[trigger] issues@[k]).location.position;
                    &&& p.begin.line >= 1
                    &&& p.begin.column >= 1
                    &&& p.end.line >= 1
                    &&& p.end.column >= 1
                },
    {
        let occurrences = match self.analyze(src) {
            Ok(o) => o,
            Err(e) => {
                return Err(e);
            },
        };
        let mut issues: Vec<Issue> = Vec::new();
        let mut k: usize = 0;
        while k < occurrences.len()
            invariant
                k <= occurrences@.len(),
                occurrences_ok(occurrences@, src@.len() as int),
                issues@.len() == k,
                forall|j: int|
                    0 <= j < issues@.len() ==> issue_matches(
                        occurrences@[j],
                        #[trigger] issues@[j],
                        path@,
                    ),
                forall|j: int|
                    0 <= j < issues@.len() ==> {
                        let p = (#[trigger] issues@[j]).location.position;
                        &&& p.begin.line >= 1
                        &&& p.begin.column >= 1
                        &&& p.end.line >= 1
                        &&& p.end.column >= 1
                    },
            decreases occurrences.len() - k,
        {
            assert(occurrences@[k as int].at.wire_safe());
            let issue = crate::report::issue_from_occurrence(&occurrences[k], path.to_owned());
            issues.push(issue);
            k += 1;
        }
        Ok(issues)
    }

    /// Whether the runner should analyze the file at `path`: its path
    /// matches none of the ignore patterns, and its extension equals the
    /// configured one.
    pub fn wants_file(&self, ignore_set: &regex::RegexSet, path: &str) -> (r: bool)
        ensures
            r == (!regex_set_match(regex_set_patterns(*ignore_set), path@) && (ext_of(
                encode_utf8(path@),
            ) matches Some(e) && e == encode_utf8(self.extension@))),
    {
        if regex_set_is_match(ignore_set, path) {
            return false;
        }
        let pb = path.as_bytes();
        let pblen = pb.len();
        let comp_start = match rfind_byte(pb, 47u8) {
            Some(i) => i + 1,
            None => 0,
        };
        match rfind_byte(pb, 46u8) {
            Some(d) => {
                if d > comp_start {
                    let tail = &pb[d + 1..pblen];
                    assert(tail@ =~= pb@.subrange(d + 1, pb@.len() as int));
                    crate::text::bytes_eq(tail, self.extension.as_str().as_bytes())
                } else {
                    false
                }
            },
            None => false,
        }
    }

    /// The fixture's annotations agree with an occurrence list the
    /// analysis of its de-indented source can return.
    pub open spec fn fixture_accepted(self, trimmed: Seq<u8>) -> bool {
        let tree = parse_result_of(self.language, trimmed)->0;
        &&& !self.analysis_fails(trimmed)
        &&& exists|occs: Seq<Occurrence>, c: Context|
            #![auto]
            {
                &&& occurrences_ok(occs, trimmed.len() as int)
                &&& c.wf(trimmed.len() as int)
                &&& self.context_post(c, tree, trimmed)
                &&& analyze_matches(self.validators@, occs, tree, c, trimmed)
                &&& annotations_match_spec(
                    annotations_spec(trimmed, encode_utf8(self.comment_str@)),
                    occs,
                    trimmed,
                )
            }
    }

    /// Check this linter against an annotated fixture: de-indent it,
    /// extract its annotations, analyze it, and demand that annotations
    /// and occurrences agree pairwise, in count, ranges, covered text
    /// and messages.
    ///
    /// On success the annotation law holds of *every* occurrence list
    /// the specified analysis can return, not merely of some list:
    /// annotation count equals occurrence count, and each annotation's
    /// range, covered text and message agree with its occurrence.
    pub fn test(&self, src: &str) -> (r: Result<(), String>)
        ensures
            r is Ok ==> self.fixture_accepted(trim_indent_spec(encode_utf8(src@))),
            r is Ok ==> ({
                let trimmed = trim_indent_spec(encode_utf8(src@));
                let tree = parse_result_of(self.language, trimmed)->0;
                forall|occs: Seq<Occurrence>, c: Context|
                    #![auto]
                    (self.context_post(c, tree, trimmed) && analyze_matches(
                        self.validators@,
                        occs,
                        tree,
                        c,
                        trimmed,
                    )) ==> annotations_match_spec(
                        annotations_spec(trimmed, encode_utf8(self.comment_str@)),
                        occs,
                        trimmed,
                    )
            }),
            r is Err ==> ({
                let trimmed = trim_indent_spec(encode_utf8(src@));
                let tree = parse_result_of(self.language, trimmed)->0;
                ||| self.analysis_fails(trimmed)
                ||| exists|occs: Seq<Occurrence>, c: Context|
                    #![auto]
                    {
                        &&& occurrences_ok(occs, trimmed.len() as int)
                        &&& c.wf(trimmed.len() as int)
                        &&& self.context_post(c, tree, trimmed)
                        &&& analyze_matches(self.validators@, occs, tree, c, trimmed)
                        &&& !annotations_match_spec(
                            annotations_spec(trimmed, encode_utf8(self.comment_str@)),
                            occs,
                            trimmed,
                        )
                    }
            }),
    {
        let trimmed = trim_indent_bytes(src.as_bytes());
        let annotations = extract_annotations_bytes(
            trimmed.as_slice(),
            self.comment_str.as_str().as_bytes(),
        );
        let occurrences = match self.analyze(trimmed.as_slice()) {
            Ok(o) => o,
            Err(_) => {
                return Err("analysis failed on the fixture".to_owned());
            },
        };
        if annotations_match(&annotations, &occurrences, trimmed.as_slice()) {
            proof {
                let gtrimmed = trim_indent_spec(encode_utf8(src@));
                let tree = parse_result_of(self.language, gtrimmed)->0;
                let anns = annotations_spec(gtrimmed, encode_utf8(self.comment_str@));
                let c0 = choose|c: Context|
                    #![auto]
                    c.wf(gtrimmed.len() as int) && self.context_post(c, tree, gtrimmed)
                        && analyze_matches(self.validators@, occurrences@, tree, c, gtrimmed);
                assert forall|occs: Seq<Occurrence>, c: Context|
                    #![auto]
                    (self.context_post(c, tree, gtrimmed) && analyze_matches(
                        self.validators@,
                        occs,
                        tree,
                        c,
                        gtrimmed,
                    )) implies annotations_match_spec(anns, occs, gtrimmed) by {
                    lemma_analysis_deterministic(*self, gtrimmed, occurrences@, occs, c0, c);
                    lemma_annotations_match_congruent(anns, occurrences@, occs, gtrimmed);
                }
            }
            Ok(())
        } else {
            let mut msg: Vec<u8> = Vec::new();
            push_str_bytes(&mut msg, "annotations: ");
            crate::text::push_decimal(&mut msg, annotations.len());
            push_str_bytes(&mut msg, ", occurrences: ");
            crate::text::push_decimal(&mut msg, occurrences.len());
            push_str_bytes(&mut msg, ": the fixture and the analysis disagree");
            Err(crate::text::string_from_utf8_or_empty(msg))
        }
    }
}

/// The injected trees of a file: each configured injection's results, in
/// order.
pub open spec fn injections_post(
    injs: Seq<Injection>,
    tree: tree_sitter::Tree,
    src: Seq<u8>,
) -> Seq<InjectedTree>
    decreases injs.len(),
{
    if injs.len() == 0 {
        Seq::empty()
    } else {
        crate::injection::injection_result(injs[0], tree, src) + injections_post(
            injs.drop_first(),
            tree,
            src,
        )
    }
}

/// One issue is one occurrence's wire form: same code and message, the
/// given path, and 1-based positions.
pub open spec fn issue_matches(o: Occurrence, i: Issue, path: Seq<char>) -> bool {
    &&& i.code == o.lint.code
    &&& i.message == o.message
    &&& i.location.path@ == path
    &&& i.location.position.begin.line == o.at.start_point.row + 1
    &&& i.location.position.begin.column == o.at.start_point.column + 1
    &&& i.location.position.end.line == o.at.end_point.row + 1
    &&& i.location.position.end.column == o.at.end_point.column + 1
}

/// Law: analysis is deterministic. Any two occurrence lists the
/// configuration's analysis describes over one source — each with a
/// context the configuration describes — agree observably: same length
/// and, pointwise, same range, same lint and the same message bytes.
/// Running the analysis twice on one file therefore yields identical
/// serialized results.
pub proof fn lemma_analysis_deterministic(
    l: Linter,
    src: Seq<u8>,
    occs1: Seq<Occurrence>,
    occs2: Seq<Occurrence>,
    c1: Context,
    c2: Context,
)
    requires
        l.context_post(c1, parse_result_of(l.language, src)->0, src),
        l.context_post(c2, parse_result_of(l.language, src)->0, src),
        analyze_matches(l.validators@, occs1, parse_result_of(l.language, src)->0, c1, src),
        analyze_matches(l.validators@, occs2, parse_result_of(l.language, src)->0, c2, src),
    ensures
        crate::rules::occs_similar(occs1, occs2),
{
    let tree = parse_result_of(l.language, src)->0;
    assert(crate::rules::ctx_similar(c1, c2));
    crate::rules::lemma_analyze_matches_congruent(l.validators@, occs2, tree, c2, c1, src);
    crate::rules::lemma_analyze_matches_unique(l.validators@, occs1, occs2, tree, c1, src);
}

/// The harness comparison reads only an occurrence list's observable
/// content: observably equal lists match the same annotations.
pub proof fn lemma_annotations_match_congruent(
    anns: Seq<crate::harness::SpecAnnotation>,
    occs1: Seq<Occurrence>,
    occs2: Seq<Occurrence>,
    src: Seq<u8>,
)
    requires
        annotations_match_spec(anns, occs1, src),
        crate::rules::occs_similar(occs1, occs2),
    ensures
        annotations_match_spec(anns, occs2, src),
{
    assert forall|k: int| 0 <= k < anns.len() implies annotation_matches(
        anns[k],
        #[trigger] occs2[k],
        src,
    ) by {
        assert(annotation_matches(anns[k], occs1[k], src));
        assert(occs1[k].at == occs2[k].at);
        assert(encode_utf8(occs1[k].message@) == encode_utf8(occs2[k].message@));
    }
}

/// The issues are the occurrences' wire forms, in order.
pub open spec fn issues_correspond(
    occs: Seq<Occurrence>,
    issues: Seq<Issue>,
    path: Seq<char>,
) -> bool {
    &&& issues.len() == occs.len()
    &&& forall|k: int| 0 <= k < issues.len() ==> issue_matches(occs[k], #[trigger] issues[k], path)
}

/// The position of the last occurrence of `b` in `p` before `upto`.
pub open spec fn last_index_before(p: Seq<u8>, b: u8, upto: int) -> Option<int>
    decreases upto,
{
    if 0 < upto <= p.len() {
        if p[upto - 1] == b {
            Some(upto - 1)
        } else {
            last_index_before(p, b, upto - 1)
        }
    } else {
        None
    }
}

/// The extension of the path `p`: the bytes after the last dot of its
/// final component, unless that dot begins the component. Mirrors how
/// the standard library reads an extension off a path.
pub open spec fn ext_of(p: Seq<u8>) -> Option<Seq<u8>> {
    let comp_start = match last_index_before(p, 47u8, p.len() as int) {
        Some(i) => i + 1,
        None => 0,
    };
    match last_index_before(p, 46u8, p.len() as int) {
        Some(d) => if d > comp_start {
            Some(p.subrange(d + 1, p.len() as int))
        } else {
            None
        },
        None => None,
    }
}

/// The position of the last occurrence of `b` in `p`.
pub(crate) fn rfind_byte(p: &[u8], b: u8) -> (r: Option<usize>)
    ensures
        match r {
            Some(i) => last_index_before(p@, b, p@.len() as int) == Some(i as int) && i < p@.len(),
            None => last_index_before(p@, b, p@.len() as int) is None,
        },
{
    let mut i = p.len();
    while i > 0
        invariant
            i <= p@.len(),
            last_index_before(p@, b, p@.len() as int) == last_index_before(p@, b, i as int),
        decreases i,
    {
        if p[i - 1] == b {
            return Some(i - 1);
        }
        i -= 1;
    }
    None
}

} // verus!
