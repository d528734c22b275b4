//! Splitting the argument list into translation rules and the residual
//! command line.
//!
//! Arguments are scanned in order.  While translation parsing is open, every
//! argument containing a `=` becomes a rule, split at its first `=`.  The
//! first argument without a `=` closes translation parsing and starts the
//! residual command line; everything after it is passed through verbatim,
//! whether or not it contains `=`.

use vstd::prelude::*;

verus! {

/// One translation rule: requests for `called_name` are to resolve to the
/// executable at `actual_path`.
#[derive(Debug)]
pub struct TranslationRule {
    pub called_name: String,
    pub actual_path: String,
}

/// The mathematical value of a [`TranslationRule`]: both parts as character
/// sequences.
pub struct RuleView {
    pub called_name: Seq<char>,
    pub actual_path: Seq<char>,
}

impl View for TranslationRule {
    type V = RuleView;

    open spec fn view(&self) -> RuleView {
        RuleView { called_name: self.called_name@, actual_path: self.actual_path@ }
    }
}

/// The outcome of argument parsing: the rules, in the order given, and the
/// residual command line.
#[derive(Debug)]
pub struct ParsedArgs {
    pub rules: Vec<TranslationRule>,
    pub command: Vec<String>,
}

/// Whether the token holds a `=` anywhere.
pub open spec fn has_eq(s: Seq<char>) -> bool {
    exists|i: int| 0 <= i < s.len() && s[i] == '='
}

/// The position of the first `=` in the token, or its length if it has none.
pub open spec fn first_eq(s: Seq<char>) -> int
    decreases s.len(),
{
    if s.len() == 0 {
        0
    } else if s[0] == '=' {
        0
    } else {
        1 + first_eq(s.subrange(1, s.len() as int))
    }
}

/// `first_eq` finds the first `=`: everything before it differs from `=`, and
/// it lies inside the token exactly when the token has a `=` at all.
pub proof fn lemma_first_eq(s: Seq<char>)
    ensures
        0 <= first_eq(s) <= s.len(),
        has_eq(s) <==> first_eq(s) < s.len(),
        first_eq(s) < s.len() ==> s[first_eq(s)] == '=',
        forall|j: int| 0 <= j < first_eq(s) ==> s[j] != '=',
    decreases s.len(),
{
    if s.len() == 0 {
    } else if s[0] == '=' {
    } else {
        let t = s.subrange(1, s.len() as int);
        lemma_first_eq(t);
        assert forall|j: int| 0 <= j < first_eq(s) implies s[j] != '=' by {
            if j >= 1 {
                assert(s[j] == t[j - 1]);
            }
        }
        if first_eq(t) < t.len() {
            assert(s[first_eq(s)] == t[first_eq(t)]);
        } else {
            if has_eq(s) {
                let i = choose|i: int| 0 <= i < s.len() && s[i] == '=';
                assert(t[i - 1] == '=');
            }
        }
    }
}

/// The rule a token with a `=` denotes: the name before its first `=` and the
/// path after it.
pub open spec fn rule_of(s: Seq<char>) -> RuleView {
    RuleView {
        called_name: s.subrange(0, first_eq(s)),
        actual_path: s.subrange(first_eq(s) + 1, s.len() as int),
    }
}

/// How many leading tokens are translation rules: the index of the first
/// token without a `=`, or the number of tokens if every one has a `=`.
pub open spec fn rule_count(args: Seq<Seq<char>>) -> int
    decreases args.len(),
{
    if args.len() == 0 {
        0
    } else if !has_eq(args[0]) {
        0
    } else {
        1 + rule_count(args.subrange(1, args.len() as int))
    }
}

/// Every token before `rule_count` holds a `=`, and the token at
/// `rule_count`, when there is one, does not.  So no token at or after the
/// first `=`-free token counts as a rule, whatever it contains.
pub proof fn lemma_rule_count(args: Seq<Seq<char>>)
    ensures
        0 <= rule_count(args) <= args.len(),
        forall|i: int| 0 <= i < rule_count(args) ==> has_eq(#[trigger] args[i]),
        rule_count(args) < args.len() ==> !has_eq(args[rule_count(args)]),
    decreases args.len(),
{
    if args.len() == 0 {
    } else if !has_eq(args[0]) {
    } else {
        let t = args.subrange(1, args.len() as int);
        lemma_rule_count(t);
        assert forall|i: int| 0 <= i < rule_count(args) implies has_eq(#[trigger] args[i]) by {
            if i >= 1 {
                assert(args[i] == t[i - 1]);
            }
        }
        if rule_count(args) < args.len() {
            assert(args[rule_count(args)] == t[rule_count(t)]);
        }
    }
}

/// `rule_count` is the only split point: a prefix of `=`-holding tokens that
/// ends at the first `=`-free token (or at the end) has exactly its length.
pub proof fn lemma_rule_count_unique(args: Seq<Seq<char>>, k: int)
    requires
        0 <= k <= args.len(),
        forall|j: int| 0 <= j < k ==> has_eq(#[trigger] args[j]),
        k < args.len() ==> !has_eq(args[k]),
    ensures
        rule_count(args) == k,
    decreases args.len(),
{
    if args.len() == 0 {
    } else if k == 0 {
    } else {
        let t = args.subrange(1, args.len() as int);
        assert(has_eq(args[0]));
        assert forall|j: int| 0 <= j < k - 1 implies has_eq(#[trigger] t[j]) by {
            assert(t[j] == args[j + 1]);
        }
        if k - 1 < t.len() {
            assert(t[k - 1] == args[k]);
        }
        lemma_rule_count_unique(t, k - 1);
    }
}

/// The position of the first `=` in `s`, if any.
fn find_eq(s: &str) -> (r: Option<usize>)
    ensures
        r is Some <==> has_eq(s@),
        r is Some ==> r->0 == first_eq(s@),
{
    let n: usize = s.unicode_len();
    let mut i: usize = 0;
    while i < n
        invariant
            n == s@.len(),
            i <= n,
            forall|j: int| 0 <= j < i ==> s@[j] != '=',
        decreases n - i,
    {
        if s.get_char(i) == '=' {
            proof {
                lemma_first_eq(s@);
            }
            return Some(i);
        }
        i = i + 1;
    }
    proof {
        lemma_first_eq(s@);
    }
    None
}

/// Split a token holding a `=` into the rule it denotes.
fn split_rule(s: &str, eq: usize) -> (r: TranslationRule)
    requires
        eq < s@.len(),
        eq == first_eq(s@),
    ensures
        r@ == rule_of(s@),
{
    let n: usize = s.unicode_len();
    let called = s.substring_char(0, eq);
    let actual = s.substring_char(eq + 1, n);
    TranslationRule {
        called_name: called.to_owned(),
        actual_path: actual.to_owned(),
    }
}

/// Scan the argument list (the program name already removed) into translation
/// rules and the residual command line.
///
/// The first `rule_count` tokens, each of which holds a `=`, become rules in
/// order, each split at its first `=`; every later token, starting with the
/// first `=`-free one, is handed through verbatim as part of the command.
pub fn process_args(args: &Vec<String>) -> (r: ParsedArgs)
    ensures
        r.rules@.len() == rule_count(args.deep_view()),
        forall|i: int|
            0 <= i < r.rules@.len() ==> #[trigger] r.rules@[i]@ == rule_of(args.deep_view()[i]),
        r.command.deep_view() =~= args.deep_view().subrange(
            rule_count(args.deep_view()),
            args.deep_view().len() as int,
        ),
{
    let ghost av: Seq<Seq<char>> = args.deep_view();
    let mut rules: Vec<TranslationRule> = Vec::new();
    let mut command: Vec<String> = Vec::new();
    let mut trans_end = false;
    let mut i: usize = 0;
    while i < args.len()
        invariant
            av == args.deep_view(),
            i <= args.len(),
            av.len() == args.len(),
            forall|j: int| 0 <= j < rules@.len() ==> has_eq(#[trigger] av[j]),
            forall|j: int| 0 <= j < rules@.len() ==> #[trigger] rules@[j]@ == rule_of(av[j]),
            !trans_end ==> rules@.len() == i && command@.len() == 0,
            trans_end ==> rules@.len() < i && !has_eq(av[rules@.len() as int]),
            rules@.len() + command@.len() == i,
            forall|j: int|
                0 <= j < command@.len() ==> #[trigger] command@[j]@ == av[rules@.len() + j],
        decreases args.len() - i,
    {
        let arg: &String = &args[i];
        assert(arg@ == av[i as int]);
        if trans_end {
            command.push(arg.clone());
        } else {
            match find_eq(arg.as_str()) {
                Some(eq) => {
                    proof {
                        lemma_first_eq(arg@);
                    }
                    rules.push(split_rule(arg.as_str(), eq));
                },
                None => {
                    trans_end = true;
                    command.push(arg.clone());
                },
            }
        }
        i = i + 1;
    }
    proof {
        lemma_rule_count_unique(av, rules@.len() as int);
        assert(command.deep_view() =~= av.subrange(rule_count(av), av.len() as int));
    }
    ParsedArgs { rules, command }
}

} // verus!
