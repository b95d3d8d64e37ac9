//! The grammar-rewriting engine: iterative string rewriting from a start
//! sequence using a table of single-symbol productions. Symbols without a production
//! pass through unchanged; a configurable ceiling on the projected sequence
//! length guards against exponential blow-up.

use vstd::prelude::*;

verus! {

/// One production: a single symbol rewrites to a replacement sequence.
pub struct Rule {
    pub from: char,
    pub to: Vec<char>,
}

/// A production table: symbol -> replacement sequence. When the same symbol
/// is given twice, the later entry wins, as with repeated map insertion.
pub struct RuleMap {
    entries: Vec<(char, Vec<char>)>,
}

impl View for RuleMap {
    type V = Seq<(char, Seq<char>)>;

    closed spec fn view(&self) -> Seq<(char, Seq<char>)> {
        self.entries@.map_values(|e: (char, Vec<char>)| (e.0, e.1@))
    }
}

/// The replacement that a production table gives a symbol, if any; the
/// latest entry for the symbol wins.
pub open spec fn lookup_spec(entries: Seq<(char, Seq<char>)>, c: char) -> Option<Seq<char>>
    decreases entries.len(),
{
    if entries.len() == 0 {
        None
    } else if entries.last().0 == c {
        Some(entries.last().1)
    } else {
        lookup_spec(entries.drop_last(), c)
    }
}

/// What one symbol contributes to the next generation: its replacement if a
/// production exists, else the symbol itself (literal pass-through).
pub open spec fn replacement_spec(entries: Seq<(char, Seq<char>)>, c: char) -> Seq<char> {
    match lookup_spec(entries, c) {
        Some(r) => r,
        None => seq![c],
    }
}

/// One full left-to-right rewriting pass over a sequence.
pub open spec fn expand_once_spec(s: Seq<char>, entries: Seq<(char, Seq<char>)>) -> Seq<char>
    decreases s.len(),
{
    if s.len() == 0 {
        Seq::empty()
    } else {
        expand_once_spec(s.drop_last(), entries) + replacement_spec(entries, s.last())
    }
}

/// The sequence after `n` rewriting passes over `s`.
pub open spec fn expand_spec(s: Seq<char>, entries: Seq<(char, Seq<char>)>, n: nat) -> Seq<char>
    decreases n,
{
    if n == 0 {
        s
    } else {
        expand_spec(expand_once_spec(s, entries), entries, (n - 1) as nat)
    }
}

impl RuleMap {
    pub fn new() -> (r: RuleMap)
        ensures
            r@ =~= Seq::<(char, Seq<char>)>::empty(),
    {
        RuleMap { entries: Vec::new() }
    }

    /// Adds a production; a later entry for the same symbol shadows an
    /// earlier one.
    pub fn insert(&mut self, from: char, to: Vec<char>)
        ensures
            final(self)@ =~= old(self)@.push((from, to@)),
    {
        self.entries.push((from, to));
    }

    pub fn len(&self) -> (n: usize)
        ensures
            n == self@.len(),
    {
        self.entries.len()
    }

    /// Finds the index of the entry that decides the replacement for `c`,
    /// if a production for `c` exists.
    pub fn find(&self, c: char) -> (r: Option<usize>)
        ensures
            match r {
                Some(i) => i < self@.len() && self@[i as int].0 == c && lookup_spec(self@, c)
                    == Some(self@[i as int].1),
                None => lookup_spec(self@, c) is None,
            },
    {
        let ghost full = self@;
        let mut i: usize = self.entries.len();
        proof {
            assert(full.take(i as int) =~= full);
        }
        while i > 0
            invariant
                i <= self.entries.len(),
                full == self@,
                lookup_spec(full, c) == lookup_spec(full.take(i as int), c),
            decreases i,
        {
            i = i - 1;
            if self.entries[i].0 == c {
                assert(full.take(i + 1).last() == full[i as int]);
                return Some(i);
            }
            proof {
                assert(full.take(i + 1).drop_last() =~= full.take(i as int));
                assert(full.take(i + 1).last() == full[i as int]);
            }
        }
        proof {
            assert(full.take(0) =~= Seq::<(char, Seq<char>)>::empty());
        }
        None
    }

    /// Appends to `out` what `c` contributes to the next generation: its
    /// replacement if a production exists, else `c` itself.
    pub fn append_replacement(&self, c: char, out: &mut Vec<char>)
        ensures
            final(out)@ =~= old(out)@ + replacement_spec(self@, c),
    {
        match self.find(c) {
            Some(i) => {
                let ghost base = out@;
                let m = self.entries[i].1.len();
                proof {
                    assert(self@[i as int].1 == self.entries@[i as int].1@);
                }
                for j in 0..m
                    invariant
                        i < self.entries@.len(),
                        m == self.entries@[i as int].1@.len(),
                        lookup_spec(self@, c) == Some(self.entries@[i as int].1@),
                        out@ =~= base + self.entries@[i as int].1@.take(j as int),
                {
                    out.push(self.entries[i].1[j]);
                }
                proof {
                    assert(self.entries@[i as int].1@.take(m as int) =~= self.entries@[
                        i as int
                    ].1@);
                }
            },
            None => {
                out.push(c);
            },
        }
    }

    /// The number of symbols `c` contributes to the next generation.
    pub fn replacement_len(&self, c: char) -> (n: usize)
        ensures
            n == replacement_spec(self@, c).len(),
    {
        match self.find(c) {
            Some(i) => {
                proof {
                    assert(self@[i as int].1 == self.entries@[i as int].1@);
                }
                self.entries[i].1.len()
            },
            None => 1,
        }
    }
}

/// One full rewriting pass: every symbol of `seq_in` is replaced by what the
/// production table gives it, left to right, into a fresh sequence.
pub fn expand_once(seq_in: &Vec<char>, rules: &RuleMap) -> (out: Vec<char>)
    ensures
        out@ =~= expand_once_spec(seq_in@, rules@),
{
    let mut out: Vec<char> = Vec::new();
    let n = seq_in.len();
    for i in 0..n
        invariant
            n == seq_in@.len(),
            out@ =~= expand_once_spec(seq_in@.take(i as int), rules@),
    {
        rules.append_replacement(seq_in[i], &mut out);
        proof {
            assert(seq_in@.take(i + 1).drop_last() =~= seq_in@.take(i as int));
            assert(seq_in@.take(i + 1).last() == seq_in@[i as int]);
        }
    }
    proof {
        assert(seq_in@.take(n as int) =~= seq_in@);
    }
    out
}

/// Expands `start` by `generations` rewriting passes over `rules`, refusing
/// with `SequenceTooLarge` — before building the oversized generation — as
/// soon as a projected generation length passes `cap`.
pub fn expand(start: &Vec<char>, rules: &RuleMap, generations: usize, cap: usize) -> (r: Result<
    Vec<char>,
    GrammarError,
>)
    requires
        cap < usize::MAX,
    ensures
        r is Ok <==> cap_ok(start@, rules@, generations as nat, cap as nat),
        r matches Ok(s) ==> s@ =~= expand_spec(start@, rules@, generations as nat),
        r matches Err(e) ==> e == GrammarError::SequenceTooLarge,
{
    let mut cur: Vec<char> = Vec::new();
    let alen = start.len();
    for i in 0..alen
        invariant
            alen == start@.len(),
            cur@ =~= start@.take(i as int),
    {
        cur.push(start[i]);
    }
    proof {
        assert(cur@ =~= start@);
    }
    for g in 0..generations
        invariant
            cap < usize::MAX,
            cur@ =~= expand_spec(start@, rules@, g as nat),
            forall|i: nat|
                1 <= i <= g ==> (#[trigger] expand_spec(start@, rules@, i)).len() <= cap,
    {
        let mut proj: usize = 0;
        let n = cur.len();
        for idx in 0..n
            invariant
                n == cur@.len(),
                proj as int == vstd::math::min(
                    expand_once_spec(cur@.take(idx as int), rules@).len() as int,
                    usize::MAX as int,
                ),
        {
            let l = rules.replacement_len(cur[idx]);
            if l > usize::MAX - proj {
                proj = usize::MAX;
            } else {
                proj = proj + l;
            }
            proof {
                assert(cur@.take(idx + 1).drop_last() =~= cur@.take(idx as int));
                assert(cur@.take(idx + 1).last() == cur@[idx as int]);
            }
        }
        proof {
            assert(cur@.take(n as int) =~= cur@);
            lemma_expand_unfold_back(start@, rules@, g as nat);
        }
        if proj > cap {
            proof {
                assert(expand_spec(start@, rules@, (g + 1) as nat).len() > cap);
                assert(!cap_ok(start@, rules@, generations as nat, cap as nat));
            }
            return Err(GrammarError::SequenceTooLarge);
        }
        let next = expand_once(&cur, rules);
        cur = next;
    }
    Ok(cur)
}

/// Builds the production table from `rules` and expands `start` by
/// `generations` rewriting passes under the default length ceiling.
pub fn gen_sequence(start: &Vec<char>, rules: &Vec<Rule>, generations: usize) -> (r: Result<
    Vec<char>,
    GrammarError,
>)
    ensures
        r is Ok <==> cap_ok(
            start@,
            rules@.map_values(|u: Rule| (u.from, u.to@)),
            generations as nat,
            MAX_SEQUENCE_LEN as nat,
        ),
        r matches Ok(s) ==> s@ =~= expand_spec(
            start@,
            rules@.map_values(|u: Rule| (u.from, u.to@)),
            generations as nat,
        ),
        r matches Err(e) ==> e == GrammarError::SequenceTooLarge,
{
    let map = create_rule_map(rules);
    expand(start, &map, generations, MAX_SEQUENCE_LEN)
}

/// The error a rewriting request gets when the projected sequence length
/// passes the configured ceiling.
#[derive(Clone, Copy, PartialEq, Eq, Structural, Debug)]
pub enum GrammarError {
    SequenceTooLarge,
}

/// The ceiling `gen_sequence` places on the length of every generation.
pub const MAX_SEQUENCE_LEN: usize = 0x100_0000;

/// Holds when every generation up to the `n`-th stays within `cap` symbols.
pub open spec fn cap_ok(
    s: Seq<char>,
    entries: Seq<(char, Seq<char>)>,
    n: nat,
    cap: nat,
) -> bool {
    forall|i: nat| 1 <= i <= n ==> (#[trigger] expand_spec(s, entries, i)).len() <= cap
}

/// Peeling a rewriting pass off the back: `n + 1` passes are `n` passes
/// followed by one more.
pub proof fn lemma_expand_unfold_back(s: Seq<char>, entries: Seq<(char, Seq<char>)>, n: nat)
    ensures
        expand_spec(s, entries, n + 1) == expand_once_spec(expand_spec(s, entries, n), entries),
    decreases n,
{
    let once = expand_once_spec(s, entries);
    assert(expand_spec(s, entries, n + 1) == expand_spec(once, entries, n));
    if n == 0 {
        assert(expand_spec(once, entries, 0) == once);
        assert(expand_spec(s, entries, 0) == s);
    } else {
        lemma_expand_unfold_back(once, entries, (n - 1) as nat);
        assert(expand_spec(once, entries, ((n - 1) as nat) + 1) == expand_once_spec(
            expand_spec(once, entries, (n - 1) as nat),
            entries,
        ));
        assert(((n - 1) as nat) + 1 == n);
        assert(expand_spec(s, entries, n) == expand_spec(once, entries, (n - 1) as nat));
    }
}

/// Law: zero generations is the identity. Expanding any start with any
/// productions for zero generations returns the start unchanged.
pub proof fn lemma_expand_zero_generations(s: Seq<char>, entries: Seq<(char, Seq<char>)>)
    ensures
        expand_spec(s, entries, 0) == s,
{
}

/// Law: rewriting is deterministic. Two results of expanding the same start
/// with the same productions for the same number of generations are equal,
/// each being the one sequence the specification defines.
pub proof fn lemma_expand_deterministic(
    r1: Seq<char>,
    r2: Seq<char>,
    s: Seq<char>,
    entries: Seq<(char, Seq<char>)>,
    n: nat,
)
    requires
        r1 == expand_spec(s, entries, n),
        r2 == expand_spec(s, entries, n),
    ensures
        r1 == r2,
{
}

/// Builds a production table from a list of rules, in order.
///
/// Duplicate symbols are legal: the last rule for a symbol wins, matching
/// repeated insertion into a map.
pub fn create_rule_map(rules: &Vec<Rule>) -> (r: RuleMap)
    ensures
        r@ =~= rules@.map_values(|u: Rule| (u.from, u.to@)),
{
    let mut r = RuleMap::new();
    let n = rules.len();
    for i in 0..n
        invariant
            n == rules@.len(),
            r@ =~= rules@.take(i as int).map_values(|u: Rule| (u.from, u.to@)),
    {
        let mut to: Vec<char> = Vec::new();
        let m = rules[i].to.len();
        for j in 0..m
            invariant
                i < rules@.len(),
                m == rules@[i as int].to@.len(),
                to@ =~= rules@[i as int].to@.take(j as int),
        {
            to.push(rules[i].to[j]);
            proof {
                assert(rules@[i as int].to@.take(j + 1) =~= rules@[i as int].to@.take(
                    j as int,
                ).push(rules@[i as int].to@[j as int]));
            }
        }
        proof {
            assert(to@ =~= rules@[i as int].to@);
        }
        r.insert(rules[i].from, to);
        proof {
            assert(rules@.take(i + 1).map_values(|u: Rule| (u.from, u.to@)) =~= rules@.take(
                i as int,
            ).map_values(|u: Rule| (u.from, u.to@)).push((rules@[i as int].from, rules@[i as int].to@)));
        }
    }
    proof {
        assert(rules@.take(n as int) =~= rules@);
    }
    r
}

} // verus!
