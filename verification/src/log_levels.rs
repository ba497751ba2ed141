//! Log levels from a text like `warn,nodem_esp32=debug`.
use crate::text::{
    fields, first_at, lacks, lemma_first_at, same, split_once, split_trimmed, texts, trim, trimmed,
};
use vstd::prelude::*;

verus! {

broadcast use vstd::string::group_string_axioms;

#[derive(Clone, Copy, PartialEq, Eq, Debug, Structural)]
pub enum LogLevel {
    Off,
    Error,
    Warn,
    Info,
    Debug,
    Trace,
}

impl LogLevel {
    /// How much a level lets through.
    pub open spec fn order(self) -> nat {
        match self {
            LogLevel::Off => 0,
            LogLevel::Error => 1,
            LogLevel::Warn => 2,
            LogLevel::Info => 3,
            LogLevel::Debug => 4,
            LogLevel::Trace => 5,
        }
    }

    /// How much a level lets through.
    pub fn rank(self) -> (r: u8)
        ensures
            r == self.order(),
    {
        match self {
            LogLevel::Off => 0,
            LogLevel::Error => 1,
            LogLevel::Warn => 2,
            LogLevel::Info => 3,
            LogLevel::Debug => 4,
            LogLevel::Trace => 5,
        }
    }
}

/// An ASCII letter in lower case; any other character as it is.
pub open spec fn lower(c: char) -> char {
    if 'A' <= c <= 'Z' {
        (c as u32 + 32) as char
    } else {
        c
    }
}

/// The level that a text names, in any mix of upper and lower case.
pub open spec fn level_of(s: Seq<char>) -> Option<LogLevel> {
    let t = s.map_values(|c: char| lower(c));
    if t == "off"@ {
        Some(LogLevel::Off)
    } else if t == "error"@ {
        Some(LogLevel::Error)
    } else if t == "warn"@ {
        Some(LogLevel::Warn)
    } else if t == "info"@ {
        Some(LogLevel::Info)
    } else if t == "debug"@ {
        Some(LogLevel::Debug)
    } else if t == "trace"@ {
        Some(LogLevel::Trace)
    } else {
        None
    }
}

/// `from_str` of `LevelFilter` in the `log` crate: the level that the text
/// names, where letters are compared without regard to ASCII case; an error
/// for every other text.
#[verifier::external_body]
fn parse_level(s: &str) -> (r: Option<LogLevel>)
    ensures
        r == level_of(s@),
{
    match s.parse::<log::LevelFilter>() {
        Ok(log::LevelFilter::Off) => Some(LogLevel::Off),
        Ok(log::LevelFilter::Error) => Some(LogLevel::Error),
        Ok(log::LevelFilter::Warn) => Some(LogLevel::Warn),
        Ok(log::LevelFilter::Info) => Some(LogLevel::Info),
        Ok(log::LevelFilter::Debug) => Some(LogLevel::Debug),
        Ok(log::LevelFilter::Trace) => Some(LogLevel::Trace),
        Err(_) => None,
    }
}

/// One entry: the level of a target, where `*` is everything. Without a level
/// the entry is not valid.
#[derive(Debug)]
pub struct Directive {
    pub entry: String,
    pub target: String,
    pub level: Option<LogLevel>,
}

/// What an entry says.
pub struct DirectiveModel {
    pub entry: Seq<char>,
    pub target: Seq<char>,
    pub level: Option<LogLevel>,
}

impl View for Directive {
    type V = DirectiveModel;

    open spec fn view(&self) -> DirectiveModel {
        DirectiveModel { entry: self.entry@, target: self.target@, level: self.level }
    }
}

/// What is to be set.
#[derive(Debug)]
pub struct LogPlan {
    pub directives: Vec<Directive>,
    pub max: LogLevel,
}

/// The texts that are not empty.
pub open spec fn present(fs: Seq<Seq<char>>) -> Seq<Seq<char>>
    decreases fs.len(),
{
    if fs.len() == 0 {
        seq![]
    } else if fs.last().len() == 0 {
        present(fs.drop_last())
    } else {
        present(fs.drop_last()).push(fs.last())
    }
}

/// What an entry says: `<target>=<level>`, or a level for everything.
pub open spec fn directive_of(entry: Seq<char>) -> DirectiveModel {
    let k = first_at(entry, '=');
    if k < entry.len() {
        DirectiveModel {
            entry,
            target: trimmed(entry.take(k)),
            level: level_of(trimmed(entry.skip(k + 1))),
        }
    } else {
        DirectiveModel { entry, target: "*"@, level: level_of(entry) }
    }
}

/// The most that any target lets through, after `ds` have been set in order:
/// a level for everything replaces it, one for a single target can raise it.
pub open spec fn max_of(ds: Seq<DirectiveModel>, max: LogLevel) -> LogLevel
    decreases ds.len(),
{
    if ds.len() == 0 {
        max
    } else {
        let before = max_of(ds.drop_last(), max);
        match ds.last().level {
            Some(level) => if ds.last().target == "*"@ || level.order() > before.order() {
                level
            } else {
                before
            },
            None => before,
        }
    }
}

/// The entries of a text.
pub open spec fn directives_of(spec_text: Seq<char>) -> Seq<DirectiveModel> {
    present(fields(spec_text, ',')).map_values(|e: Seq<char>| directive_of(e))
}

/// The models of a vector's directives.
pub open spec fn models(v: Seq<Directive>) -> Seq<DirectiveModel> {
    v.map_values(|d: Directive| d@)
}

/// Reads one entry.
fn parse_directive(entry: &str) -> (r: Directive)
    ensures
        r@ == directive_of(entry@),
{
    match split_once(entry, '=') {
        Some((target, level)) => Directive {
            entry: entry.to_owned(),
            target: trim(target).to_owned(),
            level: parse_level(trim(level)),
        },
        None => Directive {
            entry: entry.to_owned(),
            target: "*".to_owned(),
            level: parse_level(entry),
        },
    }
}

/// Reads a comma-separated list of levels and `<target>=<level>` entries, on
/// top of `max`, the most that is let through now. Entries that are not valid
/// change nothing.
pub fn apply_log_levels(spec_text: &str, max: LogLevel) -> (r: LogPlan)
    ensures
        models(r.directives@) == directives_of(spec_text@),
        r.max == max_of(directives_of(spec_text@), max),
{
    let parts: Vec<&str> = split_trimmed(spec_text, ',');
    let ghost fs = fields(spec_text@, ',');
    let mut directives: Vec<Directive> = Vec::new();
    let mut most: LogLevel = max;
    proof {
        assert(fs.take(0) =~= seq![]);
        assert(models(directives@) =~= seq![]);
        assert(present(fs.take(0)).map_values(|e: Seq<char>| directive_of(e)) =~= seq![]);
    }
    for i in 0..parts.len()
        invariant
            texts(parts@) == fs,
            models(directives@) == present(fs.take(i as int)).map_values(
                |e: Seq<char>| directive_of(e),
            ),
            most == max_of(models(directives@), max),
    {
        let entry: &str = parts[i];
        let ghost before = directives@;
        proof {
            assert(fs.take(i + 1).drop_last() =~= fs.take(i as int));
            assert(fs.take(i + 1).last() == entry@);
        }
        if !entry.is_empty() {
            let d: Directive = parse_directive(entry);
            if let Some(level) = d.level {
                if same(d.target.as_str(), "*") || level.rank() > most.rank() {
                    most = level;
                }
            }
            directives.push(d);
            proof {
                assert(models(directives@) =~= models(before).push(d@));
                assert(models(directives@).drop_last() =~= models(before));
                assert(present(fs.take(i + 1)).map_values(|e: Seq<char>| directive_of(e))
                    =~= present(fs.take(i as int)).map_values(
                    |e: Seq<char>| directive_of(e),
                ).push(d@));
            }
        }
    }
    proof {
        assert(fs.take(fs.len() as int) =~= fs);
    }
    LogPlan { directives, max: most }
}

// ---------------------------------------------------------------------------
// Laws
// ---------------------------------------------------------------------------

/// Every target's level is let through, unless a later entry for everything
/// replaced it.
pub proof fn lemma_max_covers(ds: Seq<DirectiveModel>, max: LogLevel, k: int)
    requires
        0 <= k < ds.len(),
        forall|i: int| k < i < ds.len() ==> (#[trigger] ds[i]).target != "*"@,
    ensures
        ds[k].level matches Some(level) ==> level.order() <= max_of(ds, max).order(),
    decreases ds.len(),
{
    if k < ds.len() - 1 {
        let rest = ds.drop_last();
        assert forall|i: int| k < i < rest.len() implies (#[trigger] rest[i]).target != "*"@ by {
            assert(rest[i] == ds[i]);
        }
        lemma_max_covers(rest, max, k);
        assert(rest[k] == ds[k]);
        assert(ds[ds.len() - 1].target != "*"@);
    }
}

/// A level for everything is the most that is let through, whatever was set
/// before; one for a single target makes it no less than itself and no less
/// than before; an entry that is not valid leaves it.
pub proof fn lemma_last_entry_counts(ds: Seq<DirectiveModel>, max: LogLevel, d: DirectiveModel)
    ensures
        ({
            let before = max_of(ds, max);
            let after = max_of(ds.push(d), max);
            match d.level {
                Some(level) => if d.target == "*"@ {
                    after == level
                } else {
                    &&& after.order() >= level.order()
                    &&& after.order() >= before.order()
                    &&& after == level || after == before
                },
                None => after == before,
            }
        }),
{
    assert(ds.push(d).drop_last() =~= ds);
}

/// The levels, from what lets nothing through to what lets everything through.
pub proof fn lemma_levels_ascend()
    ensures
        LogLevel::Off.order() < LogLevel::Error.order(),
        LogLevel::Error.order() < LogLevel::Warn.order(),
        LogLevel::Warn.order() < LogLevel::Info.order(),
        LogLevel::Info.order() < LogLevel::Debug.order(),
        LogLevel::Debug.order() < LogLevel::Trace.order(),
        forall|a: LogLevel, b: LogLevel| #[trigger] a.order() == #[trigger] b.order() ==> a == b,
{
}

/// What is in front of an entry's first equals sign is the target, what is
/// behind it the level, white space around either aside.
pub proof fn lemma_entry_splits(target: Seq<char>, level: Seq<char>)
    requires
        lacks(target, '='),
    ensures
        ({
            let d = directive_of(target + seq!['='] + level);
            &&& d.entry == target + seq!['='] + level
            &&& d.target == trimmed(target)
            &&& d.level == level_of(trimmed(level))
        }),
{
    let entry = target + seq!['='] + level;
    lemma_first_at(entry, '=', target.len() as int);
    assert(entry.take(target.len() as int) =~= target);
    assert(entry.skip(target.len() as int + 1) =~= level);
}

/// An entry without an equals sign is the level of everything.
pub proof fn lemma_entry_bare(entry: Seq<char>)
    requires
        lacks(entry, '='),
    ensures
        directive_of(entry).entry == entry,
        directive_of(entry).target == seq!['*'],
        directive_of(entry).level == level_of(entry),
{
    lemma_first_at(entry, '=', entry.len() as int);
    reveal_strlit("*");
    assert("*"@ =~= seq!['*']);
}

/// Every entry that is not empty is kept, in its place.
pub proof fn lemma_present_concat(a: Seq<Seq<char>>, b: Seq<Seq<char>>)
    ensures
        present(a + b) == present(a) + present(b),
    decreases b.len(),
{
    if b.len() == 0 {
        assert(a + b =~= a);
        assert(present(a) + present(b) =~= present(a));
    } else {
        assert((a + b).drop_last() =~= a + b.drop_last());
        assert((a + b).last() == b.last());
        lemma_present_concat(a, b.drop_last());
        assert(present(a + b) =~= present(a) + present(b));
    }
}

/// A single entry is kept exactly where it is not empty.
pub proof fn lemma_present_one(entry: Seq<char>)
    ensures
        present(seq![entry]) == if entry.len() > 0 {
            seq![entry]
        } else {
            seq![]
        },
{
    reveal_with_fuel(present, 2);
    assert(seq![entry].drop_last() =~= Seq::<Seq<char>>::empty());
    assert(present(seq![entry]) =~= if entry.len() > 0 {
        seq![entry]
    } else {
        seq![]
    });
}

} // verus!
