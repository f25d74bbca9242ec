//! The path rule engine: rendering a rule's template over an item's
//! placeholder context, testing the rule's match pattern against the rendered
//! text, and deriving the final output path through the replacement pattern.

use vstd::prelude::*;
use crate::classify::AssetType;
use crate::strtools::{spec_normalize, spec_join_path, spec_decimal, normalize_separators,
    join_path, u64_to_string};

verus! {

/// Whether a pattern is a valid regular expression.
pub uninterp spec fn spec_regex_valid(pattern: Seq<char>) -> bool;

/// Whether a valid pattern matches somewhere in a text.
pub uninterp spec fn spec_regex_matches(pattern: Seq<char>, text: Seq<char>) -> bool;

/// The text with the pattern's first match replaced through a replacement
/// pattern (which may name the match's capture groups).
pub uninterp spec fn spec_regex_replace_first(
    pattern: Seq<char>,
    text: Seq<char>,
    replacement: Seq<char>,
) -> Seq<char>;

/// The rendering of a template over the four placeholder values.
pub uninterp spec fn spec_render(
    template: Seq<char>,
    name: Seq<char>,
    container: Seq<char>,
    index: Seq<char>,
    bundle_path: Seq<char>,
) -> Seq<char>;

/// Relies on `regex::Regex::new`: whether a pattern compiles is a function of
/// the pattern alone.
#[verifier::external_body]
pub fn regex_pattern_valid(pattern: &str) -> (r: bool)
    ensures
        r == spec_regex_valid(pattern@),
{
    regex::Regex::new(pattern).is_ok()
}

/// Relies on `regex::Regex::new` and `regex::Regex::is_match`: whether a
/// valid pattern matches a text is a function of the pattern and the text
/// alone.
#[verifier::external_body]
fn regex_is_match(pattern: &str, text: &str) -> (r: bool)
    requires
        spec_regex_valid(pattern@),
    ensures
        r == spec_regex_matches(pattern@, text@),
{
    regex::Regex::new(pattern).unwrap().is_match(text)
}

/// Relies on `regex::Regex::new` and `regex::Regex::replace`: replacing the
/// first match of a valid pattern is a function of the pattern, the text and
/// the replacement alone, and a text the pattern does not match is returned
/// unchanged.
#[verifier::external_body]
fn regex_replace_first(pattern: &str, text: &str, replacement: &str) -> (r: String)
    requires
        spec_regex_valid(pattern@),
    ensures
        r@ == spec_regex_replace_first(pattern@, text@, replacement@),
        !spec_regex_matches(pattern@, text@) ==> r@ == text@,
{
    regex::Regex::new(pattern).unwrap().replace(text, replacement).into_owned()
}

/// Relies on `new_string_template`'s `Template::new` and
/// `Template::render_nofail`: rendering substitutes the four known
/// placeholders, never fails on unknown ones (they stay as they stand), and
/// depends on the template and the four values alone.
#[verifier::external_body]
fn render_template(template: &str, name: &str, container: &str, index: &str, bundle_path: &str) -> (r:
    String)
    ensures
        r@ == spec_render(template@, name@, container@, index@, bundle_path@),
{
    let mut values = std::collections::HashMap::new();
    values.insert("name", name);
    values.insert("container", container);
    values.insert("index", index);
    values.insert("bundle_path", bundle_path);
    new_string_template::template::Template::new(template).render_nofail(&values)
}

/// The four placeholder values available to template rendering, all
/// stringified eagerly.
pub struct PlaceholderContext {
    pub name: String,
    pub container: String,
    pub index: String,
    pub bundle_path: String,
}

/// Builds the placeholder context of one item: its decoded name, its resolved
/// container name (empty if none), its zero-based ordinal within the
/// archive's enumeration, and the normalized source archive path.
pub fn make_context(name: String, container: String, index: usize, bundle_path: String) -> (ctx:
    PlaceholderContext)
    ensures
        ctx.name == name,
        ctx.container == container,
        ctx.index@ == spec_decimal(index as nat),
        ctx.bundle_path == bundle_path,
{
    PlaceholderContext { name, container, index: u64_to_string(index as u64), bundle_path }
}

/// One extraction rule: applied only to items of its asset type; its template
/// is rendered, tested against its match pattern, and rewritten through its
/// replacement into a relative output path.
pub struct Rule {
    pub asset_type: AssetType,
    pub template: String,
    pub match_pattern: String,
    pub replacement: String,
}

impl Rule {
    /// A rule is well formed when its match pattern is a valid regular
    /// expression; anything else is a configuration error, fatal to the run.
    pub open spec fn wf(&self) -> bool {
        spec_regex_valid(self.match_pattern@)
    }
}

/// Checks every rule's match pattern before any archive is touched: the
/// position of the first rule whose pattern does not compile, or `None` when
/// the whole rule set is well formed.
pub fn validate_rules(rules: &Vec<Rule>) -> (r: Option<usize>)
    ensures
        r is None ==> forall|i: int| 0 <= i < rules@.len() ==> rules@[i].wf(),
        r matches Some(i) ==> 0 <= i < rules@.len() && !rules@[i as int].wf() && forall|j: int|
            0 <= j < i ==> rules@[j].wf(),
{
    let n = rules.len();
    let mut i: usize = 0;
    while i < n
        invariant
            0 <= i <= n,
            n == rules@.len(),
            forall|j: int| 0 <= j < i ==> rules@[j].wf(),
        decreases n - i,
    {
        if !regex_pattern_valid(rules[i].match_pattern.as_str()) {
            return Some(i);
        }
        i = i + 1;
    }
    None
}

/// What one rule yields for one item: nothing when the rule's type differs
/// from the item's or its pattern does not match the rendered template
/// (a silent skip, not an error); otherwise the final output path, the
/// destination root joined with the rewritten relative path, separators
/// normalized.
pub open spec fn spec_rule_output(
    rule: Rule,
    item_type: AssetType,
    ctx: PlaceholderContext,
    dest_root: Seq<char>,
) -> Option<Seq<char>> {
    if rule.asset_type != item_type {
        None
    } else {
        let rendered = spec_render(
            rule.template@,
            ctx.name@,
            ctx.container@,
            ctx.index@,
            ctx.bundle_path@,
        );
        if !spec_regex_matches(rule.match_pattern@, rendered) {
            None
        } else {
            Some(
                spec_normalize(
                    spec_join_path(
                        dest_root,
                        spec_regex_replace_first(rule.match_pattern@, rendered, rule.replacement@),
                    ),
                ),
            )
        }
    }
}

/// Applies one rule to one item.
pub fn apply_rule(rule: &Rule, item_type: AssetType, ctx: &PlaceholderContext, dest_root: &str) -> (r:
    Option<String>)
    requires
        rule.wf(),
    ensures
        (r is None) == (spec_rule_output(*rule, item_type, *ctx, dest_root@) is None),
        r matches Some(p) ==> spec_rule_output(*rule, item_type, *ctx, dest_root@) == Some(p@),
{
    if rule.asset_type != item_type {
        return None;
    }
    let rendered = render_template(
        rule.template.as_str(),
        ctx.name.as_str(),
        ctx.container.as_str(),
        ctx.index.as_str(),
        ctx.bundle_path.as_str(),
    );
    if !regex_is_match(rule.match_pattern.as_str(), rendered.as_str()) {
        return None;
    }
    let replaced = regex_replace_first(
        rule.match_pattern.as_str(),
        rendered.as_str(),
        rule.replacement.as_str(),
    );
    let joined = join_path(dest_root, replaced.as_str());
    Some(normalize_separators(joined.as_str()))
}

/// Everything a rule set yields for one item, in rule order: rules are
/// evaluated independently, and an item may yield zero, one, or many output
/// paths.
pub open spec fn spec_item_outputs(
    rules: Seq<Rule>,
    item_type: AssetType,
    ctx: PlaceholderContext,
    dest_root: Seq<char>,
) -> Seq<Seq<char>>
    decreases rules.len(),
{
    if rules.len() == 0 {
        Seq::empty()
    } else {
        let tail = spec_item_outputs(rules.drop_first(), item_type, ctx, dest_root);
        match spec_rule_output(rules[0], item_type, ctx, dest_root) {
            Some(p) => seq![p] + tail,
            None => tail,
        }
    }
}

/// Applies every rule of the set to one item, collecting the produced output
/// paths in rule order.
pub fn item_output_paths(
    rules: &Vec<Rule>,
    item_type: AssetType,
    ctx: &PlaceholderContext,
    dest_root: &str,
) -> (paths: Vec<String>)
    requires
        forall|i: int| 0 <= i < rules@.len() ==> rules@[i].wf(),
    ensures
        paths.deep_view() == spec_item_outputs(rules@, item_type, *ctx, dest_root@),
{
    let n = rules.len();
    let mut paths: Vec<String> = Vec::new();
    let mut i: usize = 0;
    proof {
        assert(rules@.skip(0) =~= rules@);
        assert(paths.deep_view() + spec_item_outputs(rules@, item_type, *ctx, dest_root@)
            =~~= spec_item_outputs(rules@, item_type, *ctx, dest_root@));
    }
    while i < n
        invariant
            0 <= i <= n,
            n == rules@.len(),
            forall|k: int| 0 <= k < rules@.len() ==> rules@[k].wf(),
            spec_item_outputs(rules@, item_type, *ctx, dest_root@) == paths.deep_view()
                + spec_item_outputs(rules@.skip(i as int), item_type, *ctx, dest_root@),
        decreases n - i,
    {
        let ghost prev_paths = paths.deep_view();
        let ghost suffix = rules@.skip(i as int);
        proof {
            assert(suffix.len() > 0);
            assert(suffix[0] == rules@[i as int]);
            assert(suffix.drop_first() =~= rules@.skip(i as int + 1));
        }
        match apply_rule(&rules[i], item_type, ctx, dest_root) {
            Some(p) => {
                let ghost pv = p@;
                paths.push(p);
                proof {
                    assert(paths.deep_view() =~~= prev_paths.push(pv));
                    assert(spec_item_outputs(suffix, item_type, *ctx, dest_root@) == seq![pv]
                        + spec_item_outputs(rules@.skip(i as int + 1), item_type, *ctx, dest_root@));
                    assert(prev_paths + (seq![pv] + spec_item_outputs(
                        rules@.skip(i as int + 1),
                        item_type,
                        *ctx,
                        dest_root@,
                    )) =~~= paths.deep_view() + spec_item_outputs(
                        rules@.skip(i as int + 1),
                        item_type,
                        *ctx,
                        dest_root@,
                    ));
                }
            },
            None => {
                proof {
                    assert(spec_item_outputs(suffix, item_type, *ctx, dest_root@)
                        == spec_item_outputs(rules@.skip(i as int + 1), item_type, *ctx, dest_root@));
                }
            },
        }
        i = i + 1;
    }
    proof {
        assert(rules@.skip(n as int) =~= Seq::<Rule>::empty());
        assert(paths.deep_view() + Seq::<Seq<char>>::empty() =~~= paths.deep_view());
    }
    paths
}

/// A rule set's outputs for one item, taken over two consecutive pieces of
/// the set: the pieces contribute independently, in order.
pub proof fn lemma_item_outputs_concat(
    a: Seq<Rule>,
    b: Seq<Rule>,
    item_type: AssetType,
    ctx: PlaceholderContext,
    dest_root: Seq<char>,
)
    ensures
        spec_item_outputs(a + b, item_type, ctx, dest_root) == spec_item_outputs(
            a,
            item_type,
            ctx,
            dest_root,
        ) + spec_item_outputs(b, item_type, ctx, dest_root),
    decreases a.len(),
{
    let whole = a + b;
    if a.len() == 0 {
        assert(whole =~= b);
        assert(spec_item_outputs(a, item_type, ctx, dest_root) + spec_item_outputs(
            b,
            item_type,
            ctx,
            dest_root,
        ) =~~= spec_item_outputs(b, item_type, ctx, dest_root));
    } else {
        assert(whole.len() > 0);
        assert(whole[0] == a[0]);
        assert(whole.drop_first() =~= a.drop_first() + b);
        lemma_item_outputs_concat(a.drop_first(), b, item_type, ctx, dest_root);
        match spec_rule_output(a[0], item_type, ctx, dest_root) {
            Some(p) => {
                assert(seq![p] + (spec_item_outputs(a.drop_first(), item_type, ctx, dest_root)
                    + spec_item_outputs(b, item_type, ctx, dest_root)) =~~= (seq![p]
                    + spec_item_outputs(a.drop_first(), item_type, ctx, dest_root))
                    + spec_item_outputs(b, item_type, ctx, dest_root));
            },
            None => {},
        }
    }
}

/// Law: rules fan out. When two rules of the set each yield a path for the
/// same item, the item's outputs carry both paths (so at least two outputs),
/// each rule contributing independently.
pub proof fn lemma_rule_fan_out(
    rules: Seq<Rule>,
    i: int,
    j: int,
    item_type: AssetType,
    ctx: PlaceholderContext,
    dest_root: Seq<char>,
)
    requires
        0 <= i < j < rules.len(),
        spec_rule_output(rules[i], item_type, ctx, dest_root) is Some,
        spec_rule_output(rules[j], item_type, ctx, dest_root) is Some,
    ensures
        spec_item_outputs(rules, item_type, ctx, dest_root).contains(
            spec_rule_output(rules[i], item_type, ctx, dest_root)->0,
        ),
        spec_item_outputs(rules, item_type, ctx, dest_root).contains(
            spec_rule_output(rules[j], item_type, ctx, dest_root)->0,
        ),
        spec_item_outputs(rules, item_type, ctx, dest_root).len() >= 2,
{
    let pi = spec_rule_output(rules[i], item_type, ctx, dest_root)->0;
    let pj = spec_rule_output(rules[j], item_type, ctx, dest_root)->0;
    let a = rules.take(i);
    let mid = rules.skip(i).take(j - i);
    let c = rules.skip(j);
    assert(rules =~= a + mid + c);
    assert(mid[0] == rules[i]);
    assert(c[0] == rules[j]);
    lemma_item_outputs_concat(a + mid, c, item_type, ctx, dest_root);
    lemma_item_outputs_concat(a, mid, item_type, ctx, dest_root);
    let oa = spec_item_outputs(a, item_type, ctx, dest_root);
    let om = spec_item_outputs(mid, item_type, ctx, dest_root);
    let oc = spec_item_outputs(c, item_type, ctx, dest_root);
    assert(spec_item_outputs(a + mid, item_type, ctx, dest_root) =~~= oa + om);
    assert(spec_item_outputs(rules, item_type, ctx, dest_root) =~~= oa + om + oc);
    assert(om[0] == pi);
    assert(oc[0] == pj);
    let whole = spec_item_outputs(rules, item_type, ctx, dest_root);
    assert(whole[oa.len() as int] == pi);
    assert(whole[oa.len() as int + om.len() as int] == pj);
    assert(whole.contains(pi));
    assert(whole.contains(pj));
}

/// Law: a silent skip blocks nothing. A rule that yields nothing for an item
/// (type mismatch or unmatched pattern) leaves the item's outputs exactly
/// what the other rules yield.
pub proof fn lemma_skip_semantics(
    rules: Seq<Rule>,
    k: int,
    item_type: AssetType,
    ctx: PlaceholderContext,
    dest_root: Seq<char>,
)
    requires
        0 <= k < rules.len(),
        spec_rule_output(rules[k], item_type, ctx, dest_root) is None,
    ensures
        spec_item_outputs(rules, item_type, ctx, dest_root) == spec_item_outputs(
            rules.remove(k),
            item_type,
            ctx,
            dest_root,
        ),
{
    let a = rules.take(k);
    let mid = rules.skip(k).take(1);
    let c = rules.skip(k + 1);
    assert(rules =~= a + mid + c);
    assert(mid[0] == rules[k]);
    lemma_item_outputs_concat(a + mid, c, item_type, ctx, dest_root);
    lemma_item_outputs_concat(a, mid, item_type, ctx, dest_root);
    assert(mid.drop_first() =~= Seq::<Rule>::empty());
    assert(spec_item_outputs(Seq::<Rule>::empty(), item_type, ctx, dest_root)
        =~~= Seq::<Seq<char>>::empty());
    assert(spec_item_outputs(mid, item_type, ctx, dest_root) =~~= Seq::<Seq<char>>::empty());
    lemma_item_outputs_concat(a, c, item_type, ctx, dest_root);
    assert(rules.remove(k) =~= a + c);
    assert(spec_item_outputs(a + mid, item_type, ctx, dest_root) + spec_item_outputs(
        c,
        item_type,
        ctx,
        dest_root,
    ) =~~= spec_item_outputs(a, item_type, ctx, dest_root) + spec_item_outputs(
        c,
        item_type,
        ctx,
        dest_root,
    ));
}

} // verus!
