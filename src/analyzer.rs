//! The analyzer: a vulnerability table, its configuration, and the scan of a prototype.

use vstd::prelude::*;
use vstd::string::StringExecFns;
use crate::string_map::{StringMap, lemma_map_of_dom};
use crate::vulnerability_db::{VulnerabilityDB, parse_db};

verus! {

/// Where the inputs come from, and the rule names (accepted, not consulted by the scan).
pub struct AnalyzerConfig {
    pub game_prototype_path: String,
    pub vulnerability_db_path: String,
    pub rules: Vec<String>,
}

/// The entity being scanned: its identity and its attributes.
pub struct GamePrototype {
    pub id: u32,
    pub name: String,
    pub description: String,
    pub game_data: StringMap,
}

/// The vulnerability source could not be read.
pub struct IoError {
    pub message: String,
}

/// The report for one attribute whose name is a known vulnerability key.
pub open spec fn finding(key: Seq<char>, value: Seq<char>) -> Seq<char> {
    "Vulnerability found: "@ + key + " -> "@ + value
}

/// The reports for the attributes, in their order, whose names are among `keys`.
pub open spec fn findings(
    keys: Set<Seq<char>>,
    attrs: Seq<(Seq<char>, Seq<char>)>,
) -> Seq<Seq<char>>
    decreases attrs.len(),
{
    if attrs.len() == 0 {
        Seq::empty()
    } else {
        let prev = findings(keys, attrs.drop_last());
        let (k, v) = attrs.last();
        if keys.contains(k) {
            prev.push(finding(k, v))
        } else {
            prev
        }
    }
}

/// A configuration together with the vulnerability table loaded for it.
pub struct Analyzer {
    config: AnalyzerConfig,
    vulnerability_db: VulnerabilityDB,
}

impl Analyzer {
    /// The known vulnerabilities, key to description.
    pub closed spec fn store(&self) -> Map<Seq<char>, Seq<char>> {
        self.vulnerability_db@
    }

    pub closed spec fn configuration(&self) -> AnalyzerConfig {
        self.config
    }

    /// What a scan of `game_prototype` reports.
    pub open spec fn scan_result(&self, game_prototype: &GamePrototype) -> Seq<Seq<char>> {
        findings(self.store().dom(), game_prototype.game_data.pairs())
    }

    /// Builds an analyzer from its configuration and the outcome of reading the vulnerability
    /// source that the configuration names. A failed read fails the whole construction.
    pub fn init(config: AnalyzerConfig, source: Result<String, IoError>) -> (r: Result<
        Analyzer,
        IoError,
    >)
        ensures
            match source {
                Ok(text) => match r {
                    Ok(a) => a.store() == parse_db(text@) && a.configuration() == config,
                    Err(_) => false,
                },
                Err(e) => match r {
                    Ok(_) => false,
                    Err(e2) => e2 == e,
                },
            },
    {
        match source {
            Ok(text) => {
                let vulnerability_db = VulnerabilityDB::parse(text.as_str());
                Ok(Analyzer { config, vulnerability_db })
            },
            Err(e) => Err(e),
        }
    }

    /// Reports each attribute of `game_prototype` whose name is a known vulnerability key,
    /// as `Vulnerability found: <name> -> <attribute value>`, in attribute order.
    pub fn analyze(&self, game_prototype: &GamePrototype) -> (r: Vec<String>)
        ensures
            r@.map_values(|s: String| s@) == self.scan_result(game_prototype),
    {
        let entries = game_prototype.game_data.entries();
        let ghost attrs = game_prototype.game_data.pairs();
        let ghost keys = self.store().dom();
        let mut results: Vec<String> = Vec::new();
        for i in 0..entries.len()
            invariant
                entries@.map_values(|p: (String, String)| (p.0@, p.1@)) == attrs,
                keys == self.store().dom(),
                results@.map_values(|s: String| s@) == findings(keys, attrs.take(i as int)),
        {
            let (key, value) = &entries[i];
            assert(attrs.take(i + 1).drop_last() =~= attrs.take(i as int));
            assert(attrs.take(i + 1).last() == (key@, value@));
            let ghost before = results@.map_values(|s: String| s@);
            if self.vulnerability_db.contains_key(key) {
                let line = report(key, value);
                results.push(line);
                assert(results@.map_values(|s: String| s@) =~= before.push(finding(key@, value@)));
            }
        }
        assert(attrs.take(entries.len() as int) =~= attrs);
        results
    }

    /// The configuration the analyzer was built with.
    pub fn config(&self) -> (r: &AnalyzerConfig)
        ensures
            *r == self.configuration(),
    {
        &self.config
    }

    /// The loaded vulnerability table.
    pub fn vulnerability_db(&self) -> (r: &VulnerabilityDB)
        ensures
            r@ == self.store(),
    {
        &self.vulnerability_db
    }
}

/// The report line for one matching attribute.
fn report(key: &String, value: &String) -> (r: String)
    ensures
        r@ == finding(key@, value@),
{
    let mut line = String::from_str("Vulnerability found: ");
    line.append(key.as_str());
    line.append(" -> ");
    line.append(value.as_str());
    proof {
        reveal_strlit("Vulnerability found: ");
        reveal_strlit(" -> ");
    }
    line
}

/// `line` reports an attribute of `attrs` whose name is among `keys`, with that attribute's value.
pub open spec fn reports_match(
    keys: Set<Seq<char>>,
    attrs: Seq<(Seq<char>, Seq<char>)>,
    line: Seq<char>,
) -> bool {
    exists|j: int|
        0 <= j < attrs.len() && keys.contains(#[trigger] attrs[j].0) && line == finding(
            attrs[j].0,
            attrs[j].1,
        )
}

/// Each report names an attribute whose name is among `keys` and carries that attribute's
/// own value; each such attribute is reported.
pub proof fn lemma_findings_are_matching_attributes(
    keys: Set<Seq<char>>,
    attrs: Seq<(Seq<char>, Seq<char>)>,
)
    ensures
        forall|i: int|
            0 <= i < findings(keys, attrs).len() ==> reports_match(
                keys,
                attrs,
                #[trigger] findings(keys, attrs)[i],
            ),
        forall|j: int|
            0 <= j < attrs.len() && keys.contains(#[trigger] attrs[j].0) ==> findings(
                keys,
                attrs,
            ).contains(finding(attrs[j].0, attrs[j].1)),
    decreases attrs.len(),
{
    if attrs.len() > 0 {
        let prev = attrs.drop_last();
        let n = attrs.len() - 1;
        lemma_findings_are_matching_attributes(keys, prev);
        let f = findings(keys, attrs);
        let fp = findings(keys, prev);
        assert forall|i: int| 0 <= i < f.len() implies reports_match(keys, attrs, #[trigger] f[i]) by {
            if i < fp.len() {
                assert(f[i] == fp[i]);
                assert(reports_match(keys, prev, fp[i]));
                let j = choose|j: int|
                    0 <= j < prev.len() && keys.contains(#[trigger] prev[j].0) && fp[i] == finding(
                        prev[j].0,
                        prev[j].1,
                    );
                assert(attrs[j] == prev[j]);
                assert(keys.contains(attrs[j].0) && f[i] == finding(attrs[j].0, attrs[j].1));
            } else {
                assert(keys.contains(attrs[n].0) && f[i] == finding(attrs[n].0, attrs[n].1));
            }
        }
        assert forall|j: int| 0 <= j < attrs.len() && keys.contains(#[trigger] attrs[j].0) implies f.contains(
            finding(attrs[j].0, attrs[j].1),
        ) by {
            if j < n {
                assert(prev[j] == attrs[j]);
                let i = choose|i: int| 0 <= i < fp.len() && fp[i] == finding(prev[j].0, prev[j].1);
                assert(f[i] == fp[i]);
            } else {
                assert(f[f.len() - 1] == finding(attrs[j].0, attrs[j].1));
            }
        }
    }
}

/// A scan decides on attribute names alone: two analyzers that know the same keys report
/// the same lines for a prototype, whatever descriptions their tables hold.
pub proof fn lemma_scan_ignores_descriptions(
    a: &Analyzer,
    b: &Analyzer,
    game_prototype: &GamePrototype,
)
    requires
        a.store().dom() == b.store().dom(),
    ensures
        a.scan_result(game_prototype) == b.scan_result(game_prototype),
{
}

/// A prototype none of whose attribute names is a known key gets no report.
pub proof fn lemma_no_false_positives(a: &Analyzer, game_prototype: &GamePrototype)
    requires
        forall|k: Seq<char>|
            #[trigger] game_prototype.game_data@.dom().contains(k) ==> !a.store().dom().contains(k),
    ensures
        a.scan_result(game_prototype) == Seq::<Seq<char>>::empty(),
{
    let attrs = game_prototype.game_data.pairs();
    assert forall|j: int| 0 <= j < attrs.len() implies !a.store().dom().contains(#[trigger] attrs[j].0) by {
        lemma_map_of_dom(attrs, attrs[j].0);
        assert(game_prototype.game_data@.dom().contains(attrs[j].0));
    }
    lemma_no_match_no_findings(a.store().dom(), attrs);
}

proof fn lemma_no_match_no_findings(keys: Set<Seq<char>>, attrs: Seq<(Seq<char>, Seq<char>)>)
    requires
        forall|j: int| 0 <= j < attrs.len() ==> !keys.contains(#[trigger] attrs[j].0),
    ensures
        findings(keys, attrs) == Seq::<Seq<char>>::empty(),
    decreases attrs.len(),
{
    if attrs.len() > 0 {
        let prev = attrs.drop_last();
        assert forall|j: int| 0 <= j < prev.len() implies !keys.contains(#[trigger] prev[j].0) by {
            assert(prev[j] == attrs[j]);
        }
        lemma_no_match_no_findings(keys, prev);
        assert(!keys.contains(attrs[attrs.len() - 1].0));
    }
}

/// Scanning the same prototype twice with the same analyzer gives the same reports: the
/// result of a scan is fixed by the table's keys and the prototype alone.
pub proof fn lemma_scan_repeatable(
    a: &Analyzer,
    game_prototype: &GamePrototype,
    first: Seq<Seq<char>>,
    second: Seq<Seq<char>>,
)
    requires
        first == a.scan_result(game_prototype),
        second == a.scan_result(game_prototype),
    ensures
        first == second,
        first.to_set() == second.to_set(),
{
}

} // verus!
