//! Launch planning: turning a JSON launch request into the program, the
//! working directory, the environment and the arguments to spawn with.
//! Spawning itself is the host process's work.

use vstd::prelude::*;
use crate::error::Error;
use crate::json::{Json, JsonV, jview, jviews_obj, lemma_jviews, lemma_jviews_obj};
use crate::setting::{find_pair_obj, pfind_from};
use crate::strutil::str_eq;

verus! {

/// What to spawn: a program, a working directory, extra environment
/// variables and arguments; `template_warning` reports a template that
/// was named but not recognized.
pub struct LaunchPlan {
    pub program: String,
    pub cwd: String,
    pub envs: Vec<(String, String)>,
    pub args: Vec<String>,
    pub template_warning: bool,
}

/// The mathematical shape of a launch plan.
pub struct PlanV {
    pub program: Seq<char>,
    pub cwd: Seq<char>,
    pub envs: Seq<(Seq<char>, Seq<char>)>,
    pub args: Seq<Seq<char>>,
    pub warn: bool,
}

/// The value of the first field named `k`, if any.
pub open spec fn field_of(fields: Seq<(Seq<char>, JsonV)>, k: Seq<char>) -> Option<JsonV> {
    match pfind_from(fields, k, 0) {
        Some(i) => Some(fields[i].1),
        None => None,
    }
}

/// The string elements among the first `n` items, in order; other
/// elements are dropped.
pub open spec fn str_args_n(items: Seq<JsonV>, n: int) -> Seq<Seq<char>>
    decreases n,
{
    if n <= 0 {
        Seq::<Seq<char>>::empty()
    } else {
        let prev = str_args_n(items, n - 1);
        match items[n - 1] {
            JsonV::Str(s) => prev.push(s),
            _ => prev,
        }
    }
}

/// The plan a launch request yields: `program`, `cwd` and `args` read
/// from the request (strings only), the working directory standing in for
/// a missing `cwd`; the `python` template overrides the program, points
/// `PYTHONPATH` at the working directory and prepends the entry script;
/// any other template is kept as written but flagged. A request that ends
/// with no program yields nothing.
pub open spec fn plan_of(fields: Seq<(Seq<char>, JsonV)>, wd: Seq<char>) -> Option<PlanV> {
    let base_prog = match field_of(fields, "program"@) {
        Some(JsonV::Str(p)) => Some(p),
        _ => None,
    };
    let cwd = match field_of(fields, "cwd"@) {
        Some(JsonV::Str(c)) => c,
        _ => wd,
    };
    let base_args = match field_of(fields, "args"@) {
        Some(JsonV::Arr(items)) => str_args_n(items, items.len() as int),
        _ => Seq::<Seq<char>>::empty(),
    };
    let t = field_of(fields, "template"@);
    let python = t == Some(JsonV::Str("python"@));
    let warn = match t {
        Some(JsonV::Str(x)) => x != "python"@,
        Some(_) => true,
        None => false,
    };
    let prog = if python {
        Some("python"@)
    } else {
        base_prog
    };
    let envs = if python {
        seq![("PYTHONPATH"@, wd)]
    } else {
        Seq::<(Seq<char>, Seq<char>)>::empty()
    };
    let args = if python {
        seq!["__main__.py"@] + base_args
    } else {
        base_args
    };
    match prog {
        Some(p) => Some(PlanV { program: p, cwd: cwd, envs: envs, args: args, warn: warn }),
        None => None,
    }
}

/// Plans one launch request, whose fields are the request object's.
pub fn plan_function(command: &Vec<(String, Json)>, work_dir: &String) -> (r: Result<
    LaunchPlan,
    Error,
>)
    ensures
        match plan_of(jviews_obj(command@), work_dir@) {
            Some(p) => {
                &&& r is Ok
                &&& r->Ok_0.program@ == p.program
                &&& r->Ok_0.cwd@ == p.cwd
                &&& Seq::new(
                    r->Ok_0.envs@.len(),
                    |i: int| (r->Ok_0.envs@[i].0@, r->Ok_0.envs@[i].1@),
                ) == p.envs
                &&& r->Ok_0.args.deep_view() == p.args
                &&& r->Ok_0.template_warning == p.warn
            },
            None => r == Result::<LaunchPlan, Error>::Err(Error::ProgramNotFound),
        },
{
    proof {
        lemma_jviews_obj(command@);
    }
    let ghost fv = jviews_obj(command@);
    let base_prog: Option<String> = match find_pair_obj(command, "program") {
        Some(i) => match &command[i].1 {
            Json::Str(p) => Some(p.clone()),
            _ => None,
        },
        None => None,
    };
    let cwd: String = match find_pair_obj(command, "cwd") {
        Some(i) => match &command[i].1 {
            Json::Str(c) => c.clone(),
            _ => work_dir.clone(),
        },
        None => work_dir.clone(),
    };
    let mut base_args: Vec<String> = Vec::new();
    match find_pair_obj(command, "args") {
        Some(i) => match &command[i].1 {
            Json::Arr(items) => {
                proof {
                    lemma_jviews(items@);
                }
                let ghost iv = crate::json::jviews(items@);
                let mut k: usize = 0;
                while k < items.len()
                    invariant
                        k <= items@.len(),
                        iv == crate::json::jviews(items@),
                        iv.len() == items@.len(),
                        forall|j: int| 0 <= j < items@.len() ==> iv[j] == jview(items@[j]),
                        base_args.deep_view() == str_args_n(iv, k as int),
                    decreases items@.len() - k,
                {
                    let ghost pre = base_args.deep_view();
                    match &items[k] {
                        Json::Str(s) => {
                            base_args.push(s.clone());
                            proof {
                                crate::strutil::lemma_deep_view_strings(&base_args);
                                assert(base_args.deep_view() =~= pre.push(items@[k as int]->Str_0@));
                            }
                        },
                        _ => {
                        },
                    }
                    k = k + 1;
                }
            },
            _ => {
                proof {
                    assert(base_args.deep_view() =~= Seq::<Seq<char>>::empty());
                }
            },
        },
        None => {
            proof {
                assert(base_args.deep_view() =~= Seq::<Seq<char>>::empty());
            }
        },
    }
    let mut python = false;
    let mut warn = false;
    match find_pair_obj(command, "template") {
        Some(i) => match &command[i].1 {
            Json::Str(x) => {
                if str_eq(x.as_str(), "python") {
                    python = true;
                } else {
                    warn = true;
                }
            },
            _ => {
                warn = true;
            },
        },
        None => {
        },
    }
    if python {
        let mut args: Vec<String> = Vec::new();
        args.push("__main__.py".to_owned());
        let mut rest = base_args;
        let ghost restv = rest.deep_view();
        args.append(&mut rest);
        proof {
            crate::strutil::lemma_deep_view_strings(&args);
            assert(args.deep_view() =~= seq!["__main__.py"@] + restv);
        }
        let mut envs: Vec<(String, String)> = Vec::new();
        envs.push(("PYTHONPATH".to_owned(), work_dir.clone()));
        proof {
            assert(Seq::new(envs@.len(), |i: int| (envs@[i].0@, envs@[i].1@)) =~= seq![
                ("PYTHONPATH"@, work_dir@),
            ]);
        }
        Ok(LaunchPlan {
            program: "python".to_owned(),
            cwd,
            envs,
            args,
            template_warning: warn,
        })
    } else {
        match base_prog {
            Some(program) => {
                let envs: Vec<(String, String)> = Vec::new();
                proof {
                    assert(Seq::new(envs@.len(), |i: int| (envs@[i].0@, envs@[i].1@)) =~= Seq::<
                        (Seq<char>, Seq<char>),
                    >::empty());
                }
                Ok(LaunchPlan { program, cwd, envs, args: base_args, template_warning: warn })
            },
            None => Err(Error::ProgramNotFound),
        }
    }
}

/// The game directory named by the settings values: entry `idx` of the
/// `dirs` array when it is a string, the stock directory otherwise. A
/// missing or malformed index reads as zero.
pub open spec fn game_dir_of(dirs: JsonV, idx: JsonV) -> Seq<char> {
    let i = (match idx {
        JsonV::Num(t) => match crate::service::parse_u64_of(t) {
            Some(n) => n,
            None => 0,
        },
        _ => 0,
    });
    match dirs {
        JsonV::Arr(items) => if i < items.len() {
            match items[i as int] {
                JsonV::Str(s) => s,
                _ => ".minecraft"@,
            }
        } else {
            ".minecraft"@
        },
        _ => ".minecraft"@,
    }
}

/// Chooses the game directory from the `game.dirs` and
/// `game.cur_dir_index` settings values.
pub fn choose_game_dir(dirs: &Json, idx: &Json) -> (r: String)
    ensures
        r@ == game_dir_of(jview(*dirs), jview(*idx)),
{
    let i: u64 = match idx {
        Json::Num(t) => match crate::service::parse_u64(t) {
            Some(n) => n,
            None => 0,
        },
        _ => 0,
    };
    match dirs {
        Json::Arr(items) => {
            proof {
                lemma_jviews(items@);
            }
            let l = items.len();
            if (i as usize as u64 == i) && (i as usize) < l {
                match &items[i as usize] {
                    Json::Str(s) => s.clone(),
                    _ => ".minecraft".to_owned(),
                }
            } else {
                proof {
                    assert(i >= items@.len());
                }
                ".minecraft".to_owned()
            }
        },
        _ => ".minecraft".to_owned(),
    }
}

} // verus!
