//! Placeholders in the values of a configuration.
//!
//! Inside `${...}` stand
//!
//! - `env:VAR`: the value of the environment variable `VAR`,
//! - `instance.name`: the name of this instance,
//! - `version`: the version of the agent.
//!
//! Anything else, and a variable that is not set, is an error: nothing is ever replaced by
//! nothing.
use vstd::prelude::*;

use crate::error::{Error, Result};
use crate::text;

verus! {

/// What the values of placeholders come from: the version of the agent and the variables of
/// the environment.
pub struct Environment {
    pub version: String,
    pub vars: Vec<(String, String)>,
}

/// The value of a variable.
pub open spec fn variable(vars: Seq<(String, String)>, name: Seq<char>) -> Option<Seq<char>>
    decreases vars.len(),
{
    if vars.len() == 0 {
        None
    } else if vars[0].0@ == name {
        Some(vars[0].1@)
    } else {
        variable(vars.drop_first(), name)
    }
}

fn variable_of(vars: &Vec<(String, String)>, name: &str) -> (r: Option<String>)
    ensures
        match r {
            Some(v) => variable(vars@, name@) == Some(v@),
            None => variable(vars@, name@) is None,
        },
{
    let mut i: usize = 0;
    assert(vars@.skip(0) =~= vars@);
    while i < vars.len()
        invariant
            i <= vars@.len(),
            variable(vars@.skip(i as int), name@) == variable(vars@, name@),
        decreases vars@.len() - i,
    {
        assert(vars@.skip(i as int)[0] == vars@[i as int]);
        assert(vars@.skip(i as int).drop_first() =~= vars@.skip(i + 1));
        if text::same(vars[i].0.as_str(), name) {
            return Some(vars[i].1.clone());
        }
        i = i + 1;
    }
    None
}

/// What a placeholder stands for, or why it stands for nothing.
pub open spec fn meaning(
    inner: Seq<char>,
    instance_name: Seq<char>,
    env: Environment,
) -> std::result::Result<Seq<char>, Seq<char>> {
    if inner == "instance.name"@ {
        Ok(instance_name)
    } else if inner == "version"@ {
        Ok(env.version@)
    } else if text::begins(inner, "env:"@) {
        let name = inner.skip("env:"@.len() as int);
        match variable(env.vars@, name) {
            Some(v) => Ok(v),
            None => Err(
                "${env:"@ + name + "} referenced but environment variable '"@ + name
                    + "' is not set"@,
            ),
        }
    } else {
        Err("unknown placeholder '${"@ + inner + "}'"@)
    }
}

/// Looks up what a placeholder stands for.
pub fn resolve_placeholder(
    inner: &str,
    instance_name: &str,
    env: &Environment,
) -> (r: std::result::Result<String, String>)
    ensures
        match r {
            Ok(v) => meaning(inner@, instance_name@, *env) == Ok::<Seq<char>, Seq<char>>(v@),
            Err(e) => meaning(inner@, instance_name@, *env) == Err::<Seq<char>, Seq<char>>(e@),
        },
{
    if text::same(inner, "instance.name") {
        return Ok(text::owned(instance_name));
    }
    if text::same(inner, "version") {
        return Ok(env.version.clone());
    }
    match text::strip_prefix(inner, "env:") {
        Some(name) => match variable_of(&env.vars, name.as_str()) {
            Some(v) => Ok(v),
            None => Err(
                text::cat5(
                    "${env:",
                    name.as_str(),
                    "} referenced but environment variable '",
                    name.as_str(),
                    "' is not set",
                ),
            ),
        },
        None => Err(text::cat3("unknown placeholder '${", inner, "}'")),
    }
}

/// The rest of a value with its placeholders replaced, or what is wrong with the first one
/// that cannot be.
pub open spec fn expanded_rest(
    rest: Seq<char>,
    whole: Seq<char>,
    instance_name: Seq<char>,
    env: Environment,
) -> std::result::Result<Seq<char>, Seq<char>>
    decreases rest.len(),
{
    match text::first_at(rest, "${"@) {
        None => Ok(rest),
        Some(start) => {
            let after = rest.skip(start + 2);
            let end = text::first_index(after, '}');
            if !(0 <= start && start + 2 <= rest.len() && 0 <= end < after.len()) {
                Err("unterminated placeholder in config value '"@ + whole + "'"@)
            } else {
                match meaning(after.take(end), instance_name, env) {
                    Err(e) => Err("in config value '"@ + whole + "': "@ + e),
                    Ok(v) => match expanded_rest(
                        after.skip(end + 1),
                        whole,
                        instance_name,
                        env,
                    ) {
                        Err(e) => Err(e),
                        Ok(t) => Ok(rest.take(start) + v + t),
                    },
                }
            }
        },
    }
}

/// A value with its placeholders replaced.
pub open spec fn expanded(
    s: Seq<char>,
    instance_name: Seq<char>,
    env: Environment,
) -> std::result::Result<Seq<char>, Seq<char>> {
    expanded_rest(s, s, instance_name, env)
}

/// What is put in front of a result.
pub open spec fn after_text(
    before: Seq<char>,
    r: std::result::Result<Seq<char>, Seq<char>>,
) -> std::result::Result<Seq<char>, Seq<char>> {
    match r {
        Ok(t) => Ok(before + t),
        Err(e) => Err(e),
    }
}

/// A result of the agent says what was wanted: the text, or a configuration error with the
/// text.
pub open spec fn says(
    r: Result<String>,
    wanted: std::result::Result<Seq<char>, Seq<char>>,
) -> bool {
    match r {
        Ok(s) => wanted == Ok::<Seq<char>, Seq<char>>(s@),
        Err(e) => wanted matches Err(m) && e.is_config(m),
    }
}

/// Replaces the placeholders of a value.
pub fn expand_placeholders(s: &str, instance_name: &str, env: &Environment) -> (r: Result<String>)
    ensures
        says(r, expanded(s@, instance_name@, *env)),
{
    let v = text::chars_of(s);
    let open = text::chars_of("${");
    let mut out = String::new();
    let mut at: usize = 0;
    let n: usize = v.len();
    proof {
        reveal_strlit("${");
        assert(v@.skip(0) =~= s@);
        assert(out@ =~= Seq::empty());
        let r = expanded(s@, instance_name@, *env);
        match r {
            Ok(t) => {
                assert(out@ + t =~= t);
            },
            Err(_) => {},
        }
    }
    loop
        invariant
            at <= n,
            n == v@.len(),
            v@ == s@,
            open@ == "${"@,
            open@.len() == 2,
            expanded(s@, instance_name@, *env) == after_text(
                out@,
                expanded_rest(v@.skip(at as int), s@, instance_name@, *env),
            ),
        decreases v@.len() - at,
    {
        let ghost rest = v@.skip(at as int);
        let start: usize = match text::find(&v, at, &open) {
            Some(i) => i,
            None => {
                let tail = text::text_of(&v, at, n);
                assert(tail@ =~= rest);
                out.append(tail.as_str());
                return Ok(out);
            },
        };
        let ghost after = rest.skip(start - at + 2);
        assert(after =~= v@.skip(start + 2));
        proof {
            text::first_index_is_least(after, '}');
        }
        let end: usize = text::find_char(&v, start + 2, '}');
        if end >= n {
            return Err(
                Error::Config(
                    text::cat3("unterminated placeholder in config value '", s, "'"),
                ),
            );
        }
        let inner = text::text_of(&v, start + 2, end);
        assert(inner@ =~= after.take(end - start - 2));
        let value = match resolve_placeholder(inner.as_str(), instance_name, env) {
            Ok(value) => value,
            Err(e) => {
                return Err(
                    Error::Config(text::cat4("in config value '", s, "': ", e.as_str())),
                );
            },
        };
        let head = text::text_of(&v, at, start);
        assert(head@ =~= rest.take(start - at));
        let ghost before = out@;
        out.append(head.as_str());
        out.append(value.as_str());
        proof {
            assert(after.skip(end - start - 2 + 1) =~= v@.skip(end + 1));
            let r = expanded_rest(v@.skip(end + 1), s@, instance_name@, *env);
            match r {
                Ok(t) => {
                    assert(before + (rest.take(start - at) + value@ + t) =~= out@ + t);
                },
                Err(_) => {},
            }
        }
        at = end + 1;
    }
}

// Laws

/// A value without placeholders stays as it is.
pub proof fn plain_text_is_unchanged(s: Seq<char>, instance_name: Seq<char>, env: Environment)
    requires
        !text::holds(s, "${"@),
    ensures
        expanded(s, instance_name, env) == Ok::<Seq<char>, Seq<char>>(s),
{
    text::first_at_is_least(s, "${"@);
}

/// The placeholders of a value, or nothing where the last one does not end.
pub open spec fn placeholders(s: Seq<char>) -> Option<Seq<Seq<char>>>
    decreases s.len(),
{
    match text::first_at(s, "${"@) {
        None => Some(Seq::empty()),
        Some(start) => {
            let after = s.skip(start + 2);
            let end = text::first_index(after, '}');
            if !(0 <= start && start + 2 <= s.len() && 0 <= end < after.len()) {
                None
            } else {
                match placeholders(after.skip(end + 1)) {
                    None => None,
                    Some(more) => Some(seq![after.take(end)] + more),
                }
            }
        },
    }
}

/// Every placeholder stands for something.
pub open spec fn all_known(p: Seq<Seq<char>>, instance_name: Seq<char>, env: Environment) -> bool {
    forall|i: int| 0 <= i < p.len() ==> meaning(#[trigger] p[i], instance_name, env) is Ok
}

/// A value is expanded exactly when each of its placeholders ends and is known: an unknown
/// one, and a variable that is not set, is never passed over.
pub proof fn expansion_needs_every_placeholder(
    s: Seq<char>,
    instance_name: Seq<char>,
    env: Environment,
)
    ensures
        expanded(s, instance_name, env) is Ok <==> (placeholders(s) matches Some(p) && all_known(
            p,
            instance_name,
            env,
        )),
{
    rest_needs_every_placeholder(s, s, instance_name, env);
}

proof fn rest_needs_every_placeholder(
    rest: Seq<char>,
    whole: Seq<char>,
    instance_name: Seq<char>,
    env: Environment,
)
    ensures
        expanded_rest(rest, whole, instance_name, env) is Ok <==> (placeholders(rest) matches Some(p)
            && all_known(p, instance_name, env)),
    decreases rest.len(),
{
    match text::first_at(rest, "${"@) {
        None => {},
        Some(start) => {
            let after = rest.skip(start + 2);
            let end = text::first_index(after, '}');
            if 0 <= start && start + 2 <= rest.len() && 0 <= end < after.len() {
                let tail = after.skip(end + 1);
                rest_needs_every_placeholder(tail, whole, instance_name, env);
                match placeholders(tail) {
                    Some(more) => {
                        let all = seq![after.take(end)] + more;
                        assert(all[0] == after.take(end));
                        if all_known(all, instance_name, env) {
                            assert forall|i: int| 0 <= i < more.len() implies meaning(
                                #[trigger] more[i],
                                instance_name,
                                env,
                            ) is Ok by {
                                assert(all[i + 1] == more[i]);
                            }
                        }
                    },
                    None => {},
                }
            }
        },
    }
}

/// A placeholder is replaced by what it stands for, and the text around it stays: the name of
/// the instance, the version of the agent, and the variables of the environment.
pub proof fn placeholders_stand_for_their_values(
    instance_name: Seq<char>,
    env: Environment,
    i: int,
)
    requires
        0 <= i < env.vars@.len(),
        forall|j: int| 0 <= j < i ==> (#[trigger] env.vars@[j]).0@ != env.vars@[i].0@,
    ensures
        meaning("instance.name"@, instance_name, env) == Ok::<Seq<char>, Seq<char>>(instance_name),
        meaning("version"@, instance_name, env) == Ok::<Seq<char>, Seq<char>>(env.version@),
        meaning("env:"@ + env.vars@[i].0@, instance_name, env) == Ok::<Seq<char>, Seq<char>>(
            env.vars@[i].1@,
        ),
{
    reveal_strlit("instance.name");
    reveal_strlit("version");
    reveal_strlit("env:");
    let inner = "env:"@ + env.vars@[i].0@;
    assert(inner[3] == ':');
    assert("instance.name"@[3] != ':');
    assert("version"@[3] != ':');
    assert(inner.take(4) =~= "env:"@);
    assert(inner.skip(4) =~= env.vars@[i].0@);
    variable_is_found(env.vars@, i);
}

proof fn variable_is_found(vars: Seq<(String, String)>, i: int)
    requires
        0 <= i < vars.len(),
        forall|j: int| 0 <= j < i ==> (#[trigger] vars[j]).0@ != vars[i].0@,
    ensures
        variable(vars, vars[i].0@) == Some(vars[i].1@),
    decreases vars.len(),
{
    if i > 0 {
        let t = vars.drop_first();
        assert(vars[0].0@ != vars[i].0@);
        assert forall|j: int| 0 <= j < i - 1 implies (#[trigger] t[j]).0@ != t[i - 1].0@ by {
            assert(t[j] == vars[j + 1]);
        }
        assert(t[i - 1] == vars[i]);
        variable_is_found(t, i - 1);
    }
}

/// A variable that is not set stands for nothing, and neither does any other word.
pub proof fn other_words_stand_for_nothing(
    word: Seq<char>,
    instance_name: Seq<char>,
    env: Environment,
)
    requires
        word != "instance.name"@,
        word != "version"@,
        forall|i: int| 0 <= i < env.vars@.len() ==> word != "env:"@ + (#[trigger] env.vars@[i]).0@,
    ensures
        meaning(word, instance_name, env) is Err,
{
    if text::begins(word, "env:"@) {
        let name = word.skip("env:"@.len() as int);
        assert(word =~= "env:"@ + name);
        unset_variable(env.vars@, name);
    }
}

proof fn unset_variable(vars: Seq<(String, String)>, name: Seq<char>)
    requires
        forall|i: int| 0 <= i < vars.len() ==> "env:"@ + name != "env:"@ + (#[trigger] vars[i]).0@,
    ensures
        variable(vars, name) is None,
    decreases vars.len(),
{
    if vars.len() > 0 {
        assert("env:"@ + name != "env:"@ + vars[0].0@);
        let t = vars.drop_first();
        assert forall|i: int| 0 <= i < t.len() implies "env:"@ + name != "env:"@ + (
        #[trigger] t[i]).0@ by {
            assert(t[i] == vars[i + 1]);
        }
        unset_variable(t, name);
    }
}

/// Of a value, the text before a placeholder stays, the placeholder becomes what it stands for,
/// and what follows is expanded in turn.
pub proof fn a_placeholder_is_replaced_in_place(
    before: Seq<char>,
    inner: Seq<char>,
    after: Seq<char>,
    instance_name: Seq<char>,
    env: Environment,
)
    requires
        !text::holds(before, "${"@),
        !inner.contains('}'),
        meaning(inner, instance_name, env) is Ok,
        !text::holds(after, "${"@),
    ensures
        expanded(before + "${"@ + inner + "}"@ + after, instance_name, env) == Ok::<
            Seq<char>,
            Seq<char>,
        >(before + meaning(inner, instance_name, env)->Ok_0 + after),
{
    reveal_strlit("${");
    reveal_strlit("}");
    let open = "${"@;
    let s = before + open + inner + "}"@ + after;
    let n = before.len() as int;
    text::first_at_is_least(s, open);
    assert(s.subrange(n, n + 2) =~= open);
    assert(text::stands_at(s, open, n));
    assert(text::holds(s, open));
    let i = text::first_at(s, open)->0;
    if i < n {
        assert(s.subrange(i, i + 2)[0] == s[i] && s.subrange(i, i + 2)[1] == s[i + 1]);
        if i + 1 < n {
            assert(before.subrange(i, i + 2) =~= open);
            assert(text::stands_at(before, open, i));
        } else {
            assert(s[i + 1] == open[0]);
        }
    }
    assert(i == n);
    let rest = s.skip(n + 2);
    assert(rest =~= inner.push('}') + after);
    text::cutting_takes_one_character(inner, '}', after);
    text::first_index_is_least(rest, '}');
    let end = text::first_index(rest, '}');
    assert(rest[inner.len() as int] == '}');
    if end < inner.len() {
        assert(inner[end] == rest[end]);
        assert(inner.contains(rest[end]));
    }
    assert(end == inner.len());
    assert(rest.take(end) =~= inner);
    assert(rest.skip(end + 1) =~= after);
    assert(s.take(n) =~= before);
    text::first_at_is_least(after, open);
    assert(expanded_rest(after, s, instance_name, env) == Ok::<Seq<char>, Seq<char>>(after));
}

} // verus!
