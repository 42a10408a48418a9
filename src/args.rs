use vstd::prelude::*;
use crate::error::ResponseError;
use crate::fields::chars_of;
use crate::text::{lower_of, text_eq, text_of, to_lower};

verus! {

/// Settings given on the command line.
#[derive(Debug)]
pub struct Settings {
    prod: bool,
}

/// One `key=value` argument.
#[derive(Debug)]
pub struct ArgReqeust {
    pub key: String,
    pub val: String,
}

/// `s` split at its only `=`; `None` unless it holds exactly one.
pub open spec fn split_once(s: Seq<char>) -> Option<(Seq<char>, Seq<char>)> {
    if exists|i: int| 0 <= i < s.len() && s[i] == '=' && forall|j: int| 0 <= j < s.len() && j != i ==> s[j] != '=' {
        let i = choose|i: int| 0 <= i < s.len() && s[i] == '=' && forall|j: int| 0 <= j < s.len() && j != i ==> s[j] != '=';
        Some((s.take(i), s.skip(i + 1)))
    } else {
        None
    }
}

/// The `key=value` arguments among `args`, in order.
pub open spec fn parse_args(args: Seq<Seq<char>>) -> Seq<(Seq<char>, Seq<char>)>
    decreases args.len(),
{
    if args.len() == 0 {
        Seq::empty()
    } else {
        match split_once(args.last()) {
            Some(p) => parse_args(args.drop_last()).push(p),
            None => parse_args(args.drop_last()),
        }
    }
}

pub open spec fn arg_views(args: Seq<ArgReqeust>) -> Seq<(Seq<char>, Seq<char>)> {
    args.map_values(|a: ArgReqeust| (a.key@, a.val@))
}

/// The production flag after the arguments, and the code of the last
/// argument that could not be applied.
pub open spec fn apply_args(prod: bool, args: Seq<(Seq<char>, Seq<char>)>) -> (bool, Option<i32>)
    decreases args.len(),
{
    if args.len() == 0 {
        (prod, None)
    } else {
        let (p, e) = apply_args(prod, args.drop_last());
        let (k, v) = args.last();
        if lower_of(k) == "proda"@ {
            if lower_of(v) == "true"@ {
                (true, e)
            } else if lower_of(v) == "false"@ {
                (false, e)
            } else {
                (p, Some(1574320))
            }
        } else {
            (p, Some(5435432))
        }
    }
}

impl Settings {
    pub closed spec fn prod_spec(&self) -> bool {
        self.prod
    }

    pub fn new() -> (r: Settings)
        ensures
            !r.prod_spec(),
    {
        Settings { prod: false }
    }

    /// Applies the command-line arguments (see `activate_tasks_sent_via_terminal`).
    pub fn set_prod(&mut self, arg: Vec<String>) -> (r: Result<(), ResponseError>)
        ensures
            final(self).prod_spec() == apply_args(old(self).prod_spec(), parse_args(arg.deep_view())).0,
            r is Ok <==> apply_args(old(self).prod_spec(), parse_args(arg.deep_view())).1 is None,
            r matches Err(e) ==> apply_args(old(self).prod_spec(), parse_args(arg.deep_view())).1 == Some(e.0),
    {
        let args = ArgReqeust::check_for_starting_arguments(arg);
        ArgReqeust::activate_tasks_sent_via_terminal(self, args)
    }

    pub fn get_prod(&self) -> (r: bool)
        ensures
            r == self.prod_spec(),
    {
        self.prod
    }
}

fn split_at_eq(s: &str) -> (r: Option<ArgReqeust>)
    ensures
        r matches Some(a) ==> split_once(s@) == Some((a.key@, a.val@)),
        r is None ==> split_once(s@) is None,
{
    let c = chars_of(s);
    let n = c.len();
    let mut first: usize = n;
    let mut count: usize = 0;
    let mut i: usize = 0;
    while i < n
        invariant
            n == c.len(),
            c@ == s@,
            i <= n,
            count <= i,
            count == 0 ==> first == n && forall|j: int| 0 <= j < i ==> c@[j] != '=',
            count >= 1 ==> first < i && c@[first as int] == '=' && forall|j: int| 0 <= j < first ==> c@[j] != '=',
            count == 1 ==> forall|j: int| first < j < i ==> c@[j] != '=',
            count >= 2 ==> exists|j: int| first < j < i && c@[j] == '=',
        decreases n - i,
    {
        if c[i] == '=' {
            if count == 0 {
                first = i;
            }
            count = count + 1;
        }
        i = i + 1;
    }
    if count != 1 {
        proof {
            if exists|i: int| 0 <= i < s@.len() && s@[i] == '=' && forall|j: int| 0 <= j < s@.len() && j != i ==> s@[j] != '=' {
                let w = choose|i: int| 0 <= i < s@.len() && s@[i] == '=' && forall|j: int| 0 <= j < s@.len() && j != i ==> s@[j] != '=';
                if count >= 2 {
                    let j = choose|j: int| first < j < n && c@[j] == '=';
                    assert(j != w || first as int != w);
                }
            }
        }
        return None;
    }
    let key = text_of(s.substring_char(0, first));
    let val = text_of(s.substring_char(first + 1, n));
    proof {
        let w = choose|i: int| 0 <= i < s@.len() && s@[i] == '=' && forall|j: int| 0 <= j < s@.len() && j != i ==> s@[j] != '=';
        assert(w == first);
        assert(s@.skip(first + 1) =~= s@.subrange(first + 1, n as int));
    }
    Some(ArgReqeust { key, val })
}

impl ArgReqeust {
    /// The arguments of the form `key=value` (exactly one `=`), in order.
    pub fn check_for_starting_arguments(arguments: Vec<String>) -> (r: Vec<ArgReqeust>)
        ensures
            arg_views(r@) == parse_args(arguments.deep_view()),
    {
        let ghost all = arguments.deep_view();
        let mut commands: Vec<ArgReqeust> = Vec::new();
        let mut i: usize = 0;
        assert(all.take(0) =~= Seq::<Seq<char>>::empty());
        assert(arg_views(commands@) =~= Seq::<(Seq<char>, Seq<char>)>::empty());
        while i < arguments.len()
            invariant
                i <= arguments.len(),
                all == arguments.deep_view(),
                arg_views(commands@) == parse_args(all.take(i as int)),
            decreases arguments.len() - i,
        {
            proof {
                assert(all.take(i + 1).drop_last() =~= all.take(i as int));
            }
            let ghost before = commands@;
            match split_at_eq(arguments[i].as_str()) {
                Some(a) => {
                    commands.push(a);
                    assert(arg_views(commands@) =~= arg_views(before).push((a.key@, a.val@)));
                },
                None => {},
            }
            i = i + 1;
        }
        assert(all.take(arguments.len() as int) =~= all);
        commands
    }

    /// Applies the arguments in order: `proda=true` / `proda=false` (any
    /// case) set the production flag; any other argument is an error, and the
    /// last error is returned after all are applied.
    pub fn activate_tasks_sent_via_terminal(settings: &mut Settings, arguments: Vec<ArgReqeust>) -> (r: Result<(), ResponseError>)
        ensures
            final(settings).prod_spec() == apply_args(old(settings).prod_spec(), arg_views(arguments@)).0,
            r is Ok <==> apply_args(old(settings).prod_spec(), arg_views(arguments@)).1 is None,
            r matches Err(e) ==> apply_args(old(settings).prod_spec(), arg_views(arguments@)).1 == Some(e.0),
    {
        let ghost start = settings.prod;
        let ghost all = arg_views(arguments@);
        let mut last: Option<i32> = None;
        let mut i: usize = 0;
        assert(all.take(0) =~= Seq::<(Seq<char>, Seq<char>)>::empty());
        while i < arguments.len()
            invariant
                i <= arguments.len(),
                all == arg_views(arguments@),
                (settings.prod, last) == apply_args(start, all.take(i as int)),
            decreases arguments.len() - i,
        {
            proof {
                assert(all.take(i + 1).drop_last() =~= all.take(i as int));
                assert(all.take(i + 1).last() == (arguments@[i as int].key@, arguments@[i as int].val@));
            }
            let key = to_lower(arguments[i].key.as_str());
            if text_eq(key.as_str(), "proda") {
                let val = to_lower(arguments[i].val.as_str());
                if text_eq(val.as_str(), "true") {
                    settings.prod = true;
                } else if text_eq(val.as_str(), "false") {
                    settings.prod = false;
                } else {
                    last = Some(1574320);
                }
            } else {
                last = Some(5435432);
            }
            i = i + 1;
        }
        assert(all.take(arguments.len() as int) =~= all);
        match last {
            None => Ok(()),
            Some(1574320) => Err((1574320, text_of("У нас нету возможности обработать такое значение"))),
            Some(code) => Err((code, text_of("Не известный ключ."))),
        }
    }
}

} // verus!
