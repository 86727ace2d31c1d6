//! What a worker is started with: its command line, its directory and the environment through
//! which it finds the sockets.
use crate::number::{
    decimal, int_text, is_digit, law_other_texts_are_no_numbers, lemma_decimal_is_read_back,
    lemma_i32_round_trip, lemma_unsigned_round_trip, push_i32, push_u64, read_unsigned,
};
use crate::options::{optional_text, Options, OptionsView};
use crate::port::{listener_views, Listener, ListenerView};
use crate::text::{
    first_index, joined_by, lemma_cut_first_of_join, lemma_cut_last_of_join, lemma_first_index,
    lemma_join_push, lemma_last_index, lemma_pieces_of_join, lines, lines_of, pieces, slice_texts,
    texts,
};
use crate::worker::{entries_read, entry_read, ports_read, ErrorView};
use crate::{GENERATION_ENV, PORT_ENV};
use vstd::prelude::*;
use vstd::string::StrSliceExecFns;
use vstd::string::StringExecFns;

verus! {

/// The entry of one listener in `SERVER_STARTER_PORT`.
pub open spec fn entry_text(l: ListenerView) -> Seq<char> {
    l.key + seq!['='] + int_text(l.fd as int)
}

/// The entries of the listeners, in their order.
pub open spec fn entry_texts(list: Seq<ListenerView>) -> Seq<Seq<char>> {
    list.map_values(|l: ListenerView| entry_text(l))
}

/// The value of `SERVER_STARTER_PORT` for the listeners `list`.
pub open spec fn port_env(list: Seq<ListenerView>) -> Seq<char> {
    joined_by(entry_texts(list), ';')
}

/// Builds the `SERVER_STARTER_PORT` value from the bound listeners.
pub fn build_port_env(listeners: &Vec<Listener>) -> (r: String)
    ensures
        r@ == port_env(listener_views(listeners@)),
{
    let mut out = String::new();
    let ghost views = listener_views(listeners@);
    let mut i: usize = 0;
    assert(entry_texts(views.take(0)) =~= Seq::<Seq<char>>::empty());
    while i < listeners.len()
        invariant
            i <= listeners.len(),
            views == listener_views(listeners@),
            out@ == port_env(views.take(i as int)),
        decreases listeners.len() - i,
    {
        let ghost done = entry_texts(views.take(i as int));
        let ghost part = entry_text(views[i as int]);
        if i > 0 {
            out.push(';');
        }
        out.append(listeners[i].key.as_str());
        out.push('=');
        push_i32(&mut out, listeners[i].fd);
        proof {
            assert(views.take(i + 1) =~= views.take(i as int).push(views[i as int]));
            assert(entry_texts(views.take(i + 1)) =~= done.push(part));
            if i > 0 {
                lemma_join_push(done, ';', part);
                assert(out@ =~= joined_by(done, ';') + seq![';'] + part);
            } else {
                assert(done.push(part) =~= seq![part]);
                assert(joined_by(seq![part], ';') == part);
                assert(out@ =~= part);
            }
        }
        i = i + 1;
    }
    assert(views.take(i as int) =~= views);
    out
}

/// Which descriptor each address is advertised at: of several listeners under one address the last
/// counts.
pub open spec fn advertised(list: Seq<ListenerView>) -> Map<Seq<char>, i32>
    decreases list.len(),
{
    if list.len() == 0 {
        Map::empty()
    } else {
        advertised(list.drop_last()).insert(list.last().key, list.last().fd)
    }
}

proof fn lemma_entry_is_read_back(l: ListenerView)
    ensures
        entry_read(entry_text(l)) == Some((l.key, l.fd)),
        entry_text(l).len() > 0,
        !l.key.contains(';') ==> !entry_text(l).contains(';'),
{
    let digits = int_text(l.fd as int);
    lemma_i32_round_trip(l.fd);
    lemma_decimal_is_read_back(l.fd as nat);
    lemma_decimal_is_read_back((-l.fd) as nat);
    assert forall|i: int| 0 <= i < digits.len() implies digits[i] == '-' || is_digit(
        #[trigger] digits[i],
    ) by {
        if l.fd < 0 {
            if i > 0 {
                assert(digits[i] == decimal((-l.fd) as nat)[i - 1]);
            }
        } else {
            assert(digits[i] == decimal(l.fd as nat)[i]);
        }
    }
    assert(!digits.contains('='));
    lemma_cut_last_of_join(l.key, '=', digits);
    if entry_text(l).contains(';') {
        let i = choose|i: int| 0 <= i < entry_text(l).len() && entry_text(l)[i] == ';';
        if i < l.key.len() {
            assert(l.key[i] == ';');
        } else if i > l.key.len() {
            assert(digits[i - l.key.len() - 1] == ';');
        }
    }
}

proof fn lemma_entries_split(a: Seq<Seq<char>>, b: Seq<Seq<char>>, ports: Map<Seq<char>, i32>)
    requires
        entries_read(a, ports) is Ok,
    ensures
        entries_read(a + b, ports) == entries_read(b, entries_read(a, ports)->Ok_0),
    decreases a.len(),
{
    if a.len() == 0 {
        assert(a + b =~= b);
    } else {
        assert((a + b)[0] == a[0]);
        assert((a + b).skip(1) =~= a.skip(1) + b);
        if a[0].len() == 0 {
            lemma_entries_split(a.skip(1), b, ports);
        } else {
            let (address, fd) = entry_read(a[0])->Some_0;
            lemma_entries_split(a.skip(1), b, ports.insert(address, fd));
        }
    }
}

proof fn lemma_entries_are_read_back(list: Seq<ListenerView>)
    ensures
        entries_read(entry_texts(list), Map::empty()) == Ok::<_, ErrorView>(advertised(list)),
    decreases list.len(),
{
    if list.len() > 0 {
        let shorter = list.drop_last();
        let last = list.last();
        lemma_entries_are_read_back(shorter);
        assert(entry_texts(list) =~= entry_texts(shorter) + seq![entry_text(last)]);
        lemma_entries_split(entry_texts(shorter), seq![entry_text(last)], Map::empty());
        lemma_entry_is_read_back(last);
        assert(seq![entry_text(last)].skip(1) =~= Seq::<Seq<char>>::empty());
        let ports = advertised(list);
        assert(entries_read(Seq::<Seq<char>>::empty(), ports) == Ok::<_, ErrorView>(ports));
        assert(entries_read(seq![entry_text(last)], advertised(shorter)) == Ok::<_, ErrorView>(
            ports,
        ));
    }
}

/// A worker reads back from `SERVER_STARTER_PORT` the descriptor of every address that was bound,
/// as long as no address holds the separator `;`.
pub proof fn law_ports_are_read_back(list: Seq<ListenerView>)
    requires
        forall|i: int| 0 <= i < list.len() ==> !(#[trigger] list[i]).key.contains(';'),
    ensures
        ports_read(port_env(list)) == Ok::<_, ErrorView>(advertised(list)),
{
    let parts = entry_texts(list);
    if list.len() == 0 {
        assert(parts =~= Seq::<Seq<char>>::empty());
        let none = Seq::<char>::empty();
        assert(port_env(list) =~= none);
        assert(pieces(none, ';') =~= seq![none]);
        assert(seq![none].skip(1) =~= Seq::<Seq<char>>::empty());
        let ports = Map::<Seq<char>, i32>::empty();
        assert(entries_read(Seq::<Seq<char>>::empty(), ports) == Ok::<_, ErrorView>(ports));
        assert(entries_read(seq![none], ports) == Ok::<_, ErrorView>(ports));
    } else {
        assert forall|i: int| 0 <= i < parts.len() implies !(#[trigger] parts[i]).contains(';') by {
            lemma_entry_is_read_back(list[i]);
        }
        lemma_pieces_of_join(parts, ';');
        lemma_entries_are_read_back(list);
    }
}

/// Where no two listeners share an address, each is advertised at its own descriptor, and nothing
/// else is.
pub proof fn law_every_listener_is_advertised(list: Seq<ListenerView>)
    requires
        forall|i: int, j: int|
            0 <= i < j < list.len() ==> (#[trigger] list[i]).key != (#[trigger] list[j]).key,
    ensures
        forall|i: int|
            0 <= i < list.len() ==> advertised(list).contains_key((#[trigger] list[i]).key)
                && advertised(list)[list[i].key] == list[i].fd,
        forall|address: Seq<char>| #[trigger]
            advertised(list).contains_key(address) ==> exists|i: int|
                0 <= i < list.len() && (#[trigger] list[i]).key == address,
    decreases list.len(),
{
    if list.len() > 0 {
        let shorter = list.drop_last();
        assert forall|i: int, j: int| 0 <= i < j < shorter.len() implies (
        #[trigger] shorter[i]).key != (#[trigger] shorter[j]).key by {
            assert(list[i].key != list[j].key);
        }
        law_every_listener_is_advertised(shorter);
        let n = list.len() - 1;
        assert forall|i: int| 0 <= i < list.len() implies advertised(list).contains_key(
            (#[trigger] list[i]).key,
        ) && advertised(list)[list[i].key] == list[i].fd by {
            if i < n {
                assert(shorter[i] == list[i]);
                assert(list[i].key != list[n].key);
            }
        }
        assert forall|address: Seq<char>| #[trigger]
            advertised(list).contains_key(address) implies exists|i: int|
            0 <= i < list.len() && (#[trigger] list[i]).key == address by {
            if address == list[n].key {
            } else {
                assert(advertised(shorter).contains_key(address));
                let i = choose|i: int|
                    0 <= i < shorter.len() && (#[trigger] shorter[i]).key == address;
                assert(list[i].key == address);
            }
        }
    }
}

/// One file of the `--envdir` directory: its name, and what it holds if it was read.
#[derive(Debug)]
pub struct EnvFile {
    pub name: String,
    pub contents: Option<String>,
}

/// What an [`EnvFile`] holds.
pub struct EnvFileView {
    pub name: Seq<char>,
    pub contents: Option<Seq<char>>,
}

impl View for EnvFile {
    type V = EnvFileView;

    open spec fn view(&self) -> EnvFileView {
        EnvFileView { name: self.name@, contents: optional_text(self.contents) }
    }
}

/// Whether a file of that name is skipped: those that start with a dot are.
pub open spec fn hidden(name: Seq<char>) -> bool {
    name.len() > 0 && name[0] == '.'
}

/// The first line of `contents`, without its line end.
pub open spec fn first_line(contents: Seq<char>) -> Seq<char> {
    if lines_of(contents).len() > 0 {
        lines_of(contents)[0]
    } else {
        Seq::empty()
    }
}

/// The variables that the files name, in the order of the files: each that is not hidden and that
/// was read gives one.
pub open spec fn variables(files: Seq<EnvFileView>) -> Seq<(Seq<char>, Seq<char>)>
    decreases files.len(),
{
    if files.len() == 0 {
        Seq::empty()
    } else {
        let before = variables(files.drop_last());
        let file = files.last();
        match file.contents {
            Some(contents) => if hidden(file.name) {
                before
            } else {
                before.push((file.name, first_line(contents)))
            },
            None => before,
        }
    }
}

/// The names and values of a list of variables.
pub open spec fn pair_views(pairs: Seq<(String, String)>) -> Seq<(Seq<char>, Seq<char>)> {
    pairs.map_values(|p: (String, String)| (p.0@, p.1@))
}

/// What the files of a list hold.
pub open spec fn file_views(files: Seq<EnvFile>) -> Seq<EnvFileView> {
    files.map_values(|f: EnvFile| f@)
}

proof fn lemma_pair_push(pairs: Seq<(String, String)>, p: (String, String))
    ensures
        pair_views(pairs.push(p)) == pair_views(pairs).push((p.0@, p.1@)),
{
    assert(pair_views(pairs.push(p)) =~= pair_views(pairs).push((p.0@, p.1@)));
}

/// Whether a file of that name is skipped.
pub fn is_hidden(name: &str) -> (r: bool)
    ensures
        r == hidden(name@),
{
    name.unicode_len() > 0 && name.get_char(0) == '.'
}

/// The value that a file's contents give its variable.
pub fn variable_value(contents: &str) -> (r: String)
    ensures
        r@ == first_line(contents@),
{
    let all = lines(contents);
    assert(slice_texts(all@).len() == all.len());
    if all.len() > 0 {
        String::from_str(all[0])
    } else {
        String::new()
    }
}

/// The environment variables of `--envdir`: one variable per file, named after the file, valued by
/// the file's first line.
pub fn load_envdir(files: &Vec<EnvFile>) -> (r: Vec<(String, String)>)
    ensures
        pair_views(r@) == variables(file_views(files@)),
{
    let mut vars: Vec<(String, String)> = Vec::new();
    let ghost views = file_views(files@);
    let mut i: usize = 0;
    assert(pair_views(vars@) =~= variables(views.take(0)));
    while i < files.len()
        invariant
            i <= files.len(),
            views == file_views(files@),
            pair_views(vars@) == variables(views.take(i as int)),
        decreases files.len() - i,
    {
        proof {
            assert(views.take(i + 1).drop_last() =~= views.take(i as int));
            assert(views.take(i + 1).last() == files@[i as int]@);
        }
        let file = &files[i];
        if let Some(contents) = &file.contents {
            if !is_hidden(file.name.as_str()) {
                let pair = (file.name.clone(), variable_value(contents.as_str()));
                proof {
                    lemma_pair_push(vars@, pair);
                }
                vars.push(pair);
            }
        }
        i = i + 1;
    }
    assert(views.take(i as int) =~= views);
    vars
}

/// How a worker is started.
#[derive(Debug)]
pub struct Launch {
    pub program: String,
    pub args: Vec<String>,
    /// The variables that are set on top of the superdaemon's own, in this order: of several under
    /// one name the last counts.
    pub vars: Vec<(String, String)>,
    /// The directory that the worker starts in, if it is not the superdaemon's own.
    pub dir: Option<String>,
}

/// What a [`Launch`] holds.
pub struct LaunchView {
    pub program: Seq<char>,
    pub args: Seq<Seq<char>>,
    pub vars: Seq<(Seq<char>, Seq<char>)>,
    pub dir: Option<Seq<char>>,
}

impl View for Launch {
    type V = LaunchView;

    open spec fn view(&self) -> LaunchView {
        LaunchView {
            program: self.program@,
            args: texts(self.args@),
            vars: pair_views(self.vars@),
            dir: optional_text(self.dir),
        }
    }
}

/// How a worker of the generation `generation` is started, with the variables `extra` of
/// `--envdir`.
pub open spec fn launched(
    opts: OptionsView,
    port_env: Seq<char>,
    generation: u64,
    extra: Seq<(Seq<char>, Seq<char>)>,
) -> LaunchView {
    LaunchView {
        program: opts.command[0],
        args: opts.command.skip(1),
        vars: seq![(PORT_ENV@, port_env), (GENERATION_ENV@, decimal(generation as nat))] + extra,
        dir: opts.dir,
    }
}

/// Plans the start of a worker of the generation `generation`.
pub fn launch(opts: &Options, port_env: &String, generation: u64, files: &Vec<EnvFile>) -> (r:
    Launch)
    requires
        opts.command@.len() > 0,
    ensures
        r@ == launched(opts@, port_env@, generation, variables(file_views(files@))),
{
    let mut args: Vec<String> = Vec::new();
    let mut i: usize = 1;
    while i < opts.command.len()
        invariant
            1 <= i <= opts.command.len(),
            args.len() == i - 1,
            forall|j: int| 0 <= j < args.len() ==> #[trigger] args@[j]@ == opts.command@[j + 1]@,
        decreases opts.command.len() - i,
    {
        args.push(opts.command[i].clone());
        i = i + 1;
    }
    let mut number = String::new();
    push_u64(&mut number, generation);
    assert(number@ =~= decimal(generation as nat));
    let mut vars: Vec<(String, String)> = Vec::new();
    vars.push((String::from_str(PORT_ENV), port_env.clone()));
    vars.push((String::from_str(GENERATION_ENV), number));
    let mut extra = load_envdir(files);
    let ghost own = vars@;
    let ghost more = extra@;
    vars.append(&mut extra);
    proof {
        assert(pair_views(own + more) =~= seq![
            (PORT_ENV@, port_env@),
            (GENERATION_ENV@, decimal(generation as nat)),
        ] + pair_views(more));
        assert(texts(args@) =~= texts(opts.command@).skip(1));
    }
    Launch { program: opts.command[0].clone(), args, vars, dir: opts.dir.clone() }
}

/// The value that the variable `name` ends up with, if `vars` sets it.
pub open spec fn value_of(vars: Seq<(Seq<char>, Seq<char>)>, name: Seq<char>) -> Option<Seq<char>>
    decreases vars.len(),
{
    if vars.len() == 0 {
        None
    } else if vars.last().0 == name {
        Some(vars.last().1)
    } else {
        value_of(vars.drop_last(), name)
    }
}

proof fn lemma_value_behind(
    own: Seq<(Seq<char>, Seq<char>)>,
    extra: Seq<(Seq<char>, Seq<char>)>,
    name: Seq<char>,
)
    requires
        forall|i: int| 0 <= i < extra.len() ==> (#[trigger] extra[i]).0 != name,
    ensures
        value_of(own + extra, name) == value_of(own, name),
    decreases extra.len(),
{
    if extra.len() == 0 {
        assert(own + extra =~= own);
    } else {
        assert((own + extra).drop_last() =~= own + extra.drop_last());
        assert((own + extra).last() == extra.last());
        assert(extra[extra.len() - 1].0 != name);
        lemma_value_behind(own, extra.drop_last(), name);
    }
}

/// A worker finds every socket and its own generation in its environment, as long as no address
/// holds the separator `;` and no file of `--envdir` takes the place of the two variables.
pub proof fn law_worker_finds_its_sockets(
    opts: OptionsView,
    list: Seq<ListenerView>,
    generation: u64,
    extra: Seq<(Seq<char>, Seq<char>)>,
)
    requires
        forall|i: int| 0 <= i < list.len() ==> !(#[trigger] list[i]).key.contains(';'),
        forall|i: int|
            0 <= i < extra.len() ==> (#[trigger] extra[i]).0 != PORT_ENV@ && extra[i].0
                != GENERATION_ENV@,
    ensures
        ({
            let vars = launched(opts, port_env(list), generation, extra).vars;
            &&& value_of(vars, PORT_ENV@) matches Some(raw)
            &&& ports_read(raw) == Ok::<_, ErrorView>(advertised(list))
            &&& value_of(vars, GENERATION_ENV@) matches Some(number)
            &&& read_unsigned(number, u64::MAX as nat) == Some(generation as nat)
        }),
{
    reveal_strlit("SERVER_STARTER_PORT");
    reveal_strlit("SERVER_STARTER_GENERATION");
    let first = (PORT_ENV@, port_env(list));
    let second = (GENERATION_ENV@, decimal(generation as nat));
    let own = seq![first, second];
    lemma_value_behind(own, extra, PORT_ENV@);
    lemma_value_behind(own, extra, GENERATION_ENV@);
    assert(own.drop_last() =~= seq![first]);
    assert(PORT_ENV@.len() != GENERATION_ENV@.len());
    assert(value_of(seq![first], PORT_ENV@) == Some(port_env(list)));
    law_ports_are_read_back(list);
    lemma_unsigned_round_trip(generation as nat, u64::MAX as nat);
}

/// A worker runs the command of the options as it was given: its program and its arguments, one
/// behind the other, are that command, and it starts in the directory of `--dir`.
pub proof fn law_worker_runs_the_command(
    opts: OptionsView,
    port_env: Seq<char>,
    generation: u64,
    extra: Seq<(Seq<char>, Seq<char>)>,
)
    requires
        opts.command.len() > 0,
    ensures
        ({
            let l = launched(opts, port_env, generation, extra);
            &&& seq![l.program] + l.args == opts.command
            &&& l.dir == opts.dir
        }),
{
    let l = launched(opts, port_env, generation, extra);
    assert(seq![l.program] + l.args =~= opts.command);
}

/// The value that a worker finds for the sockets, where no file of `--envdir` takes its place.
pub proof fn lemma_port_value(
    opts: OptionsView,
    port_env: Seq<char>,
    generation: u64,
    extra: Seq<(Seq<char>, Seq<char>)>,
)
    requires
        forall|i: int| 0 <= i < extra.len() ==> (#[trigger] extra[i]).0 != PORT_ENV@,
    ensures
        value_of(launched(opts, port_env, generation, extra).vars, PORT_ENV@) == Some(port_env),
{
    reveal_strlit("SERVER_STARTER_PORT");
    reveal_strlit("SERVER_STARTER_GENERATION");
    let first = (PORT_ENV@, port_env);
    let own = seq![first, (GENERATION_ENV@, decimal(generation as nat))];
    lemma_value_behind(own, extra, PORT_ENV@);
    assert(own.drop_last() =~= seq![first]);
    assert(PORT_ENV@.len() != GENERATION_ENV@.len());
    assert(value_of(seq![first], PORT_ENV@) == Some(port_env));
}

proof fn lemma_value_in_front(
    own: Seq<(Seq<char>, Seq<char>)>,
    extra: Seq<(Seq<char>, Seq<char>)>,
    name: Seq<char>,
)
    requires
        value_of(extra, name) is Some,
    ensures
        value_of(own + extra, name) == value_of(extra, name),
    decreases extra.len(),
{
    assert((own + extra).last() == extra.last());
    if extra.last().0 != name {
        assert((own + extra).drop_last() =~= own + extra.drop_last());
        lemma_value_in_front(own, extra.drop_last(), name);
    }
}

/// A variable of `--envdir` reaches the worker with its value, whatever else is set.
pub proof fn law_envdir_variables_reach_the_worker(
    opts: OptionsView,
    port_env: Seq<char>,
    generation: u64,
    extra: Seq<(Seq<char>, Seq<char>)>,
    i: int,
)
    requires
        0 <= i < extra.len(),
        forall|j: int| 0 <= j < extra.len() && j != i ==> (#[trigger] extra[j]).0 != extra[i].0,
    ensures
        value_of(launched(opts, port_env, generation, extra).vars, extra[i].0) == Some(
            extra[i].1,
        ),
{
    let own = seq![(PORT_ENV@, port_env), (GENERATION_ENV@, decimal(generation as nat))];
    lemma_value_of_only(extra, i);
    lemma_value_in_front(own, extra, extra[i].0);
}

proof fn lemma_value_of_only(vars: Seq<(Seq<char>, Seq<char>)>, i: int)
    requires
        0 <= i < vars.len(),
        forall|j: int| 0 <= j < vars.len() && j != i ==> (#[trigger] vars[j]).0 != vars[i].0,
    ensures
        value_of(vars, vars[i].0) == Some(vars[i].1),
    decreases vars.len(),
{
    let n = vars.len() - 1;
    if i < n {
        assert(vars[n].0 != vars[i].0);
        let fewer = vars.drop_last();
        assert forall|j: int| 0 <= j < fewer.len() && j != i implies (#[trigger] fewer[j]).0
            != fewer[i].0 by {
            assert(fewer[j] == vars[j]);
        }
        lemma_value_of_only(fewer, i);
    }
}

/// A worker gets nothing but the two variables of the superdaemon and those of `--envdir`.
pub proof fn law_no_other_variable_is_set(
    opts: OptionsView,
    port_env: Seq<char>,
    generation: u64,
    extra: Seq<(Seq<char>, Seq<char>)>,
    i: int,
)
    requires
        0 <= i < launched(opts, port_env, generation, extra).vars.len(),
    ensures
        ({
            let var = launched(opts, port_env, generation, extra).vars[i];
            ||| var == ("SERVER_STARTER_PORT"@, port_env)
            ||| var.0 == "SERVER_STARTER_GENERATION"@ && read_unsigned(var.1, u64::MAX as nat)
                == Some(generation as nat)
            ||| extra.contains(var)
        }),
{
    lemma_unsigned_round_trip(generation as nat, u64::MAX as nat);
    if i >= 2 {
        assert(launched(opts, port_env, generation, extra).vars[i] == extra[i - 2]);
    }
}

/// Each file of `--envdir` that does not start with a dot and could be read gives its variable, and
/// no other file gives one.
pub proof fn law_every_readable_file_is_a_variable(files: Seq<EnvFileView>, name: Seq<char>)
    ensures
        (exists|i: int|
            0 <= i < files.len() && (#[trigger] files[i]).name == name && files[i].contents is Some
                && !(name.len() > 0 && name[0] == '.')) <==> value_of(variables(files), name)
            is Some,
    decreases files.len(),
{
    if files.len() > 0 {
        let fewer = files.drop_last();
        let n = files.len() - 1;
        law_every_readable_file_is_a_variable(fewer, name);
        let old = variables(fewer);
        let now = variables(files);
        if now.len() > old.len() {
            assert(now.drop_last() =~= old);
        }
        if exists|i: int|
            0 <= i < files.len() && (#[trigger] files[i]).name == name && files[i].contents is Some
                && !(name.len() > 0 && name[0] == '.') {
            let i = choose|i: int|
                0 <= i < files.len() && (#[trigger] files[i]).name == name
                    && files[i].contents is Some && !(name.len() > 0 && name[0] == '.');
            if i < n {
                assert(fewer[i] == files[i]);
            } else {
                assert(now.last() == (name, first_line(files[n].contents->Some_0)));
            }
        }
        if value_of(now, name) is Some {
            if now.len() > old.len() && now.last().0 == name {
                assert(files[n].name == name);
            } else {
                let i = choose|i: int|
                    0 <= i < fewer.len() && (#[trigger] fewer[i]).name == name
                        && fewer[i].contents is Some && !(name.len() > 0 && name[0] == '.');
                assert(files[i] == fewer[i]);
            }
        }
    }
}

/// The value of a variable is the first line of its file: what stands before the first line end,
/// which is a newline or a carriage return and a newline, or all of it where there is none.
pub proof fn law_value_is_the_first_line(line: Seq<char>, rest: Seq<char>)
    requires
        !line.contains('\n'),
    ensures
        first_line(line) == line,
        line.len() == 0 || line.last() != '\r' ==> first_line(line + seq!['\n'] + rest) == line,
        first_line(line + seq!['\r', '\n'] + rest) == line,
{
    lemma_first_index(line, '\n');
    if first_index(line, '\n') < line.len() {
        assert(line.contains('\n'));
    }
    if line.len() > 0 {
        assert(lines_of(line) == seq![line]);
    } else {
        assert(first_line(line) =~= line);
    }
    lemma_cut_first_of_join(line, '\n', rest);
    let returned = line.push('\r');
    assert(!returned.contains('\n')) by {
        if returned.contains('\n') {
            let i = choose|i: int| 0 <= i < returned.len() && returned[i] == '\n';
            assert(line[i] == '\n');
        }
    }
    lemma_cut_first_of_join(returned, '\n', rest);
    assert(line + seq!['\r', '\n'] + rest =~= returned + seq!['\n'] + rest);
    assert(returned.drop_last() =~= line);
    let a = line + seq!['\n'] + rest;
    let b = returned + seq!['\n'] + rest;
    assert(a.len() > 0 && b.len() > 0);
    assert(a.take(line.len() as int) =~= line);
    assert(b.take(returned.len() as int) =~= returned);
}

/// One more listener is put behind a `;`, as its address, a `=` and its descriptor in decimal.
pub proof fn law_port_format(list: Seq<ListenerView>, l: ListenerView)
    ensures
        port_env(Seq::empty()) == Seq::<char>::empty(),
        port_env(seq![l]) == l.key + seq!['='] + int_text(l.fd as int),
        list.len() > 0 ==> port_env(list.push(l)) == port_env(list) + seq![';'] + l.key
            + seq!['='] + int_text(l.fd as int),
{
    assert(entry_texts(Seq::empty()) =~= Seq::<Seq<char>>::empty());
    assert(entry_texts(seq![l]) =~= seq![entry_text(l)]);
    assert(entry_texts(list.push(l)) =~= entry_texts(list).push(entry_text(l)));
    if list.len() > 0 {
        lemma_join_push(entry_texts(list), ';', entry_text(l));
        assert(port_env(list.push(l)) =~= port_env(list) + seq![';'] + l.key + seq!['=']
            + int_text(l.fd as int));
    }
}

proof fn lemma_pieces_of_more(list: Seq<ListenerView>, tail: Seq<char>)
    requires
        list.len() > 0,
        forall|i: int| 0 <= i < list.len() ==> !(#[trigger] list[i]).key.contains(';'),
        !tail.contains(';'),
    ensures
        pieces(port_env(list) + seq![';'] + tail, ';') == entry_texts(list).push(tail),
{
    let parts = entry_texts(list);
    let more = parts.push(tail);
    lemma_join_push(parts, ';', tail);
    assert forall|i: int| 0 <= i < more.len() implies !(#[trigger] more[i]).contains(';') by {
        if i < parts.len() {
            lemma_entry_is_read_back(list[i]);
            assert(more[i] == entry_text(list[i]));
        }
    }
    lemma_pieces_of_join(more, ';');
}

/// An entry that names no descriptor is an error, and that entry is what the error names.
pub proof fn law_malformed_entry_is_named(list: Seq<ListenerView>, bad: Seq<char>)
    requires
        list.len() > 0,
        forall|i: int| 0 <= i < list.len() ==> !(#[trigger] list[i]).key.contains(';'),
        !bad.contains(';'),
        bad.len() > 0,
        !bad.contains('='),
    ensures
        ports_read(port_env(list) + seq![';'] + bad) == Err::<Map<Seq<char>, i32>, _>(
            ErrorView::Malformed(bad),
        ),
        ports_read(bad) == Err::<Map<Seq<char>, i32>, _>(ErrorView::Malformed(bad)),
{
    lemma_last_index(bad, '=');
    lemma_first_index(bad, ';');
    assert(entry_read(bad) is None);
    lemma_pieces_of_more(list, bad);
    lemma_bad_entry(list, bad);
}

/// An entry whose descriptor is no number is an error, and that entry is what the error names.
pub proof fn law_bad_descriptor_is_named(
    list: Seq<ListenerView>,
    key: Seq<char>,
    tail: Seq<char>,
    i: int,
)
    requires
        list.len() > 0,
        forall|j: int| 0 <= j < list.len() ==> !(#[trigger] list[j]).key.contains(';'),
        !key.contains(';'),
        !tail.contains(';'),
        !tail.contains('='),
        tail.len() == 0 || (0 < i < tail.len() && !('0' <= tail[i] <= '9')),
    ensures
        ports_read(port_env(list) + seq![';'] + (key + seq!['='] + tail)) == Err::<
            Map<Seq<char>, i32>,
            _,
        >(ErrorView::Malformed(key + seq!['='] + tail)),
{
    let bad = key + seq!['='] + tail;
    if bad.contains(';') {
        let j = choose|j: int| 0 <= j < bad.len() && bad[j] == ';';
        if j < key.len() {
            assert(key[j] == ';');
        } else if j > key.len() {
            assert(tail[j - key.len() - 1] == ';');
        }
    }
    lemma_pieces_of_more(list, bad);
    lemma_cut_last_of_join(key, '=', tail);
    law_other_texts_are_no_numbers(tail, i, 0);
    lemma_bad_entry(list, bad);
}

proof fn lemma_bad_entry(list: Seq<ListenerView>, bad: Seq<char>)
    requires
        bad.len() > 0,
        entry_read(bad) is None,
    ensures
        entries_read(entry_texts(list).push(bad), Map::empty()) == Err::<Map<Seq<char>, i32>, _>(
            ErrorView::Malformed(bad),
        ),
        entries_read(seq![bad], Map::empty()) == Err::<Map<Seq<char>, i32>, _>(
            ErrorView::Malformed(bad),
        ),
{
    lemma_entries_are_read_back(list);
    assert(entry_texts(list).push(bad) =~= entry_texts(list) + seq![bad]);
    lemma_entries_split(entry_texts(list), seq![bad], Map::empty());
    assert(entries_read(seq![bad], advertised(list)) == Err::<Map<Seq<char>, i32>, _>(
        ErrorView::Malformed(bad),
    ));
}

/// An empty entry, such as a trailing `;` makes, is of no account.
pub proof fn law_empty_entry_is_skipped(list: Seq<ListenerView>)
    requires
        list.len() > 0,
        forall|i: int| 0 <= i < list.len() ==> !(#[trigger] list[i]).key.contains(';'),
    ensures
        ports_read(port_env(list) + seq![';']) == ports_read(port_env(list)),
{
    let none = Seq::<char>::empty();
    lemma_pieces_of_more(list, none);
    assert(port_env(list) + seq![';'] + none =~= port_env(list) + seq![';']);
    law_ports_are_read_back(list);
    lemma_entries_are_read_back(list);
    assert(entry_texts(list).push(none) =~= entry_texts(list) + seq![none]);
    lemma_entries_split(entry_texts(list), seq![none], Map::empty());
    assert(seq![none].skip(1) =~= Seq::<Seq<char>>::empty());
    let ports = advertised(list);
    assert(entries_read(Seq::<Seq<char>>::empty(), ports) == Ok::<_, ErrorView>(ports));
    assert(entries_read(seq![none], ports) == Ok::<_, ErrorView>(ports));
}

/// Of several entries for one address the last counts, and the other addresses keep theirs.
pub proof fn law_last_entry_counts(list: Seq<ListenerView>, l: ListenerView)
    requires
        forall|i: int| 0 <= i < list.len() ==> !(#[trigger] list[i]).key.contains(';'),
        !l.key.contains(';'),
    ensures
        ports_read(port_env(list.push(l))) matches Ok(ports) && ports_read(port_env(list)) matches
            Ok(earlier) && ports == earlier.insert(l.key, l.fd),
{
    law_ports_are_read_back(list);
    law_ports_are_read_back(list.push(l));
    assert(list.push(l).drop_last() =~= list);
}

proof fn lemma_value_of_file(files: Seq<EnvFileView>, i: int, contents: Seq<char>)
    requires
        0 <= i < files.len(),
        files[i].contents == Some(contents),
        files[i].name.len() == 0 || files[i].name[0] != '.',
        forall|j: int| i < j < files.len() ==> (#[trigger] files[j]).name != files[i].name,
    ensures
        value_of(variables(files), files[i].name) == Some(first_line(contents)),
    decreases files.len(),
{
    let n = files.len() - 1;
    let fewer = files.drop_last();
    let now = variables(files);
    if now.len() > variables(fewer).len() {
        assert(now.drop_last() =~= variables(fewer));
    }
    if i < n {
        assert(files[n].name != files[i].name);
        assert forall|j: int| i < j < fewer.len() implies (#[trigger] fewer[j]).name
            != fewer[i].name by {
            assert(fewer[j] == files[j]);
        }
        lemma_value_of_file(fewer, i, contents);
    }
}

/// A file of `--envdir` reaches the worker: where its first line is `line` and no later file has
/// its name, the worker finds `line` under the name of the file, whatever follows in the file and
/// whatever other files there are.
pub proof fn law_file_reaches_the_worker(
    opts: OptionsView,
    port_env: Seq<char>,
    generation: u64,
    files: Seq<EnvFileView>,
    i: int,
    line: Seq<char>,
    rest: Seq<char>,
)
    requires
        0 <= i < files.len(),
        !line.contains('\n'),
        line.len() == 0 || line.last() != '\r',
        files[i].contents == Some(line) || files[i].contents == Some(line + seq!['\n'] + rest),
        files[i].name.len() == 0 || files[i].name[0] != '.',
        forall|j: int| i < j < files.len() ==> (#[trigger] files[j]).name != files[i].name,
    ensures
        value_of(
            launched(opts, port_env, generation, variables(files)).vars,
            files[i].name,
        ) == Some(line),
{
    let own = seq![(PORT_ENV@, port_env), (GENERATION_ENV@, decimal(generation as nat))];
    law_value_is_the_first_line(line, rest);
    lemma_value_of_file(files, i, files[i].contents->Some_0);
    lemma_value_in_front(own, variables(files), files[i].name);
}

} // verus!
