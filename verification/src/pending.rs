//! What is still to be asked of the outside world.
//!
//! The caller starts from an empty [`World`], asks for the pending questions,
//! records the answers and asks again, until nothing is pending. What the
//! targets come to is then settled: no further record can change it.

use vstd::prelude::*;

use crate::address::{
    exclusion_entries, exclusions_entries, failed_paths, file_outcome, files_addresses,
    lines_addresses, optional_texts, resolve_ips_from_host, target_addresses, token_addresses,
    tokens_addresses, unresolved_targets, unresolved_tokens,
};
use crate::resolver::resolver_choice;
use crate::input::Opts;
use crate::ip::{cidr_notation, inet_notation, literal, parse_ip, read_cidr, read_inet};
use crate::text::{blank, is_blank, lines, lines_of, rows, string_of, texts};
use crate::world::{extends, FileAnswer, FileView, World};

verus! {

/// A question to the outside world.
#[derive(Clone, Debug)]
pub enum Question {
    /// What does the platform resolver give for this host name?
    System(String),
    /// What does the configured resolver give for this host name?
    Backup(String),
    /// Is there a regular file at this path, and what is its text?
    File(String),
}

/// A [`Question`] with its text as a sequence of characters.
pub enum QuestionView {
    System(Seq<char>),
    Backup(Seq<char>),
    File(Seq<char>),
}

impl View for Question {
    type V = QuestionView;

    open spec fn view(&self) -> QuestionView {
        match self {
            Question::System(host) => QuestionView::System(host@),
            Question::Backup(host) => QuestionView::Backup(host@),
            Question::File(path) => QuestionView::File(path@),
        }
    }
}

/// The views of `questions`.
pub open spec fn question_views(questions: Seq<Question>) -> Seq<QuestionView> {
    Seq::new(questions.len(), |i: int| questions[i]@)
}

/// What is to be asked about the host name `host`: the platform resolver
/// first, and the configured resolver once the platform resolver is known to
/// have failed.
pub open spec fn name_questions(world: World, host: Seq<char>) -> Seq<QuestionView> {
    if !world.system_known(host) {
        seq![QuestionView::System(host)]
    } else if world.system_answer(host) is None && !world.backup_known(host) {
        seq![QuestionView::Backup(host)]
    } else {
        Seq::empty()
    }
}

/// Whether a token is neither a literal address nor a block, so that it is
/// taken for a host name.
pub open spec fn is_name(token: Seq<char>) -> bool {
    literal(token) is None && !(inet_notation(token) matches Some(inet) && inet.wf())
}

/// What is to be asked about a token read as address, block or name.
pub open spec fn token_questions(world: World, token: Seq<char>) -> Seq<QuestionView> {
    if is_name(token) {
        name_questions(world, token)
    } else {
        Seq::empty()
    }
}

/// What is to be asked about the tokens, one after the other.
pub open spec fn tokens_questions(world: World, tokens: Seq<Seq<char>>) -> Seq<QuestionView>
    decreases tokens.len(),
{
    if tokens.len() == 0 {
        Seq::empty()
    } else {
        tokens_questions(world, tokens.drop_last()) + token_questions(world, tokens.last())
    }
}

/// What is to be asked about one line of a target file.
pub open spec fn line_questions(world: World, line: Seq<char>) -> Seq<QuestionView> {
    if is_blank(line) {
        Seq::empty()
    } else {
        token_questions(world, line)
    }
}

/// What is to be asked about the lines of a target file.
pub open spec fn lines_questions(world: World, lines: Seq<Seq<char>>) -> Seq<QuestionView>
    decreases lines.len(),
{
    if lines.len() == 0 {
        Seq::empty()
    } else {
        lines_questions(world, lines.drop_last()) + line_questions(world, lines.last())
    }
}

/// What is to be asked about a token read as the path of a target file.
/// Nothing, as long as it is open whether the token stands for an address,
/// and nothing once it does. Else the file is asked for, and once its text
/// is known, what its lines call for.
pub open spec fn path_questions(world: World, token: Seq<char>) -> Seq<QuestionView> {
    if token_questions(world, token).len() > 0 || token_addresses(world, token).len() > 0 {
        Seq::empty()
    } else if !world.file_known(token) {
        seq![QuestionView::File(token)]
    } else {
        match world.file_answer(token) {
            FileView::Text(text) => lines_questions(world, lines(text)),
            _ => Seq::empty(),
        }
    }
}

/// What is to be asked about the tokens read as paths, one after the other.
pub open spec fn paths_questions(world: World, tokens: Seq<Seq<char>>) -> Seq<QuestionView>
    decreases tokens.len(),
{
    if tokens.len() == 0 {
        Seq::empty()
    } else {
        paths_questions(world, tokens.drop_last()) + path_questions(world, tokens.last())
    }
}

/// What is to be asked about one exclusion.
pub open spec fn exclusion_questions(world: World, exclusion: Seq<char>) -> Seq<QuestionView> {
    if cidr_notation(exclusion) is None && literal(exclusion) is None {
        name_questions(world, exclusion)
    } else {
        Seq::empty()
    }
}

/// What is to be asked about the exclusions, one after the other.
pub open spec fn exclusions_questions(world: World, exclusions: Seq<Seq<char>>) -> Seq<
    QuestionView,
>
    decreases exclusions.len(),
{
    if exclusions.len() == 0 {
        Seq::empty()
    } else {
        exclusions_questions(world, exclusions.drop_last()) + exclusion_questions(
            world,
            exclusions.last(),
        )
    }
}

/// What is to be asked about the resolver source: the file at that path.
pub open spec fn resolver_questions(world: World, resolver: Option<String>) -> Seq<QuestionView> {
    match resolver {
        Some(source) => if world.file_known(source@) {
            Seq::empty()
        } else {
            seq![QuestionView::File(source@)]
        },
        None => Seq::empty(),
    }
}

/// Everything that is to be asked before the targets of `input` are settled,
/// in the order in which the answers are used.
pub open spec fn pending(world: World, input: Opts) -> Seq<QuestionView> {
    resolver_questions(world, input.resolver) + tokens_questions(
        world,
        texts(input.addresses@),
    ) + paths_questions(world, texts(input.addresses@)) + exclusions_questions(
        world,
        optional_texts(input.exclude_addresses),
    )
}

/// Adds a question to `out`.
fn ask(out: &mut Vec<Question>, question: Question)
    ensures
        question_views(final(out)@) == question_views(old(out)@) + seq![question@],
{
    out.push(question);
    assert(question_views(out@) =~= question_views(old(out)@) + seq![question@]);
}

/// Adds what is to be asked about the host name `host`.
pub fn ask_name(host: &str, world: &World, out: &mut Vec<Question>)
    ensures
        question_views(final(out)@) == question_views(old(out)@) + name_questions(*world, host@),
{
    match world.find_system(host) {
        None => {
            ask(out, Question::System(host.to_owned()));
        },
        Some(i) => {
            let failed = match &world.system[i].answer {
                Some(_) => false,
                None => true,
            };
            if failed && world.find_backup(host).is_none() {
                ask(out, Question::Backup(host.to_owned()));
            } else {
                assert(question_views(out@) + Seq::<QuestionView>::empty() =~= question_views(
                    out@,
                ));
            }
        },
    }
}

/// Whether a token is taken for a host name.
fn is_host_name(token: &str) -> (r: bool)
    ensures
        r == is_name(token@),
{
    parse_ip(token).is_none() && match read_inet(token) {
        Some(inet) => inet.prefix > inet.address.width(),
        None => true,
    }
}

/// Adds what is to be asked about a token read as address, block or name.
fn ask_token(token: &str, world: &World, out: &mut Vec<Question>)
    ensures
        question_views(final(out)@) == question_views(old(out)@) + token_questions(
            *world,
            token@,
        ),
{
    if is_host_name(token) {
        ask_name(token, world, out);
    } else {
        assert(question_views(out@) + Seq::<QuestionView>::empty() =~= question_views(out@));
    }
}

/// Adds what is to be asked about the lines of the text of a target file.
fn ask_lines(text: &str, world: &World, out: &mut Vec<Question>)
    ensures
        question_views(final(out)@) == question_views(old(out)@) + lines_questions(
            *world,
            lines(text@),
        ),
{
    let all = lines_of(text);
    let mut i: usize = 0;
    assert(rows(all@).take(0) =~= Seq::<Seq<char>>::empty());
    assert(question_views(out@) + Seq::<QuestionView>::empty() =~= question_views(out@));
    while i < all.len()
        invariant
            i <= all.len(),
            rows(all@) == lines(text@),
            question_views(out@) == question_views(old(out)@) + lines_questions(
                *world,
                rows(all@).take(i as int),
            ),
        decreases all.len() - i,
    {
        let ghost before = question_views(out@);
        proof {
            let upto = rows(all@).take(i + 1);
            assert(upto.drop_last() =~= rows(all@).take(i as int));
            assert(upto.last() == all@[i as int]@);
        }
        if !blank(&all[i]) {
            let line = string_of(&all[i]);
            ask_token(line.as_str(), world, out);
        }
        proof {
            let more = line_questions(*world, all@[i as int]@);
            let so_far = lines_questions(*world, rows(all@).take(i as int));
            assert(question_views(out@) =~= before + more);
            assert((question_views(old(out)@) + so_far) + more =~= question_views(old(out)@) + (
            so_far + more));
        }
        i = i + 1;
    }
    assert(rows(all@).take(all.len() as int) =~= rows(all@));
}

/// Whether the token, read as address, block or name, stands for no address.
fn stands_for_nothing(token: &str, world: &World) -> (r: bool)
    ensures
        r == (token_addresses(*world, token@).len() == 0),
{
    if is_host_name(token) {
        resolve_ips_from_host(token, world).len() == 0
    } else {
        proof {
            match inet_notation(token@) {
                Some(inet) => {
                    if inet.wf() {
                        crate::ip::lemma_network_aligned(inet);
                        crate::ip::lemma_block_fits(inet.spec_network());
                    }
                },
                None => {},
            }
        }
        false
    }
}

/// Adds what is to be asked about a token read as the path of a target file.
fn ask_path(token: &str, world: &World, out: &mut Vec<Question>)
    ensures
        question_views(final(out)@) == question_views(old(out)@) + path_questions(*world, token@),
{
    let ghost before = question_views(out@);
    let mut open: Vec<Question> = Vec::new();
    assert(question_views(open@) =~= Seq::<QuestionView>::empty());
    ask_token(token, world, &mut open);
    assert(question_views(open@) =~= token_questions(*world, token@));
    if open.len() > 0 || !stands_for_nothing(token, world) {
        assert(before + Seq::<QuestionView>::empty() =~= before);
        return ;
    }
    match world.find_file(token) {
        None => {
            ask(out, Question::File(token.to_owned()));
        },
        Some(i) => match &world.files[i].answer {
            FileAnswer::Text(text) => {
                ask_lines(text.as_str(), world, out);
            },
            _ => {
                assert(before + Seq::<QuestionView>::empty() =~= before);
            },
        },
    }
}

/// Adds what is to be asked about one exclusion.
fn ask_exclusion(exclusion: &str, world: &World, out: &mut Vec<Question>)
    ensures
        question_views(final(out)@) == question_views(old(out)@) + exclusion_questions(
            *world,
            exclusion@,
        ),
{
    if read_cidr(exclusion).is_none() && parse_ip(exclusion).is_none() {
        ask_name(exclusion, world, out);
    } else {
        assert(question_views(out@) + Seq::<QuestionView>::empty() =~= question_views(out@));
    }
}

/// Everything that is to be asked before the targets of `input` are settled.
pub fn pending_questions(input: &Opts, world: &World) -> (out: Vec<Question>)
    ensures
        question_views(out@) == pending(*world, *input),
{
    let mut out: Vec<Question> = Vec::new();
    let ghost tokens = texts(input.addresses@);
    assert(question_views(out@) =~= Seq::<QuestionView>::empty());
    match &input.resolver {
        Some(source) => {
            if world.find_file(source.as_str()).is_none() {
                ask(&mut out, Question::File(source.clone()));
            }
        },
        None => {},
    }
    assert(question_views(out@) =~= resolver_questions(*world, input.resolver));
    let ghost first = question_views(out@);
    let mut i: usize = 0;
    assert(tokens.take(0) =~= Seq::<Seq<char>>::empty());
    assert(first + Seq::<QuestionView>::empty() =~= first);
    while i < input.addresses.len()
        invariant
            i <= input.addresses.len(),
            tokens == texts(input.addresses@),
            question_views(out@) == first + tokens_questions(*world, tokens.take(i as int)),
        decreases input.addresses.len() - i,
    {
        proof {
            let upto = tokens.take(i + 1);
            assert(upto.drop_last() =~= tokens.take(i as int));
            assert(upto.last() == input.addresses@[i as int]@);
            let so_far = tokens_questions(*world, tokens.take(i as int));
            let more = token_questions(*world, upto.last());
            assert((first + so_far) + more =~= first + (so_far + more));
        }
        ask_token(input.addresses[i].as_str(), world, &mut out);
        i = i + 1;
    }
    assert(tokens.take(input.addresses.len() as int) =~= tokens);
    let ghost second = question_views(out@);
    let mut j: usize = 0;
    assert(second + Seq::<QuestionView>::empty() =~= second);
    while j < input.addresses.len()
        invariant
            j <= input.addresses.len(),
            tokens == texts(input.addresses@),
            question_views(out@) == second + paths_questions(*world, tokens.take(j as int)),
        decreases input.addresses.len() - j,
    {
        proof {
            let upto = tokens.take(j + 1);
            assert(upto.drop_last() =~= tokens.take(j as int));
            assert(upto.last() == input.addresses@[j as int]@);
            let so_far = paths_questions(*world, tokens.take(j as int));
            let more = path_questions(*world, upto.last());
            assert((second + so_far) + more =~= second + (so_far + more));
        }
        ask_path(input.addresses[j].as_str(), world, &mut out);
        j = j + 1;
    }
    assert(tokens.take(input.addresses.len() as int) =~= tokens);
    let ghost third = question_views(out@);
    match &input.exclude_addresses {
        Some(list) => {
            let ghost exclusions = texts(list@);
            let mut k: usize = 0;
            assert(exclusions.take(0) =~= Seq::<Seq<char>>::empty());
            assert(third + Seq::<QuestionView>::empty() =~= third);
            while k < list.len()
                invariant
                    k <= list.len(),
                    exclusions == texts(list@),
                    question_views(out@) == third + exclusions_questions(
                        *world,
                        exclusions.take(k as int),
                    ),
                decreases list.len() - k,
            {
                proof {
                    let upto = exclusions.take(k + 1);
                    assert(upto.drop_last() =~= exclusions.take(k as int));
                    assert(upto.last() == list@[k as int]@);
                    let so_far = exclusions_questions(*world, exclusions.take(k as int));
                    let more = exclusion_questions(*world, upto.last());
                    assert((third + so_far) + more =~= third + (so_far + more));
                }
                ask_exclusion(list[k].as_str(), world, &mut out);
                k = k + 1;
            }
            assert(exclusions.take(list.len() as int) =~= exclusions);
        },
        None => {
            assert(third + Seq::<QuestionView>::empty() =~= third);
        },
    }
    out
}

/// A token about which nothing is to be asked stands for the same addresses
/// in every wider world, and nothing is to be asked about it there.
pub proof fn lemma_token_settled(world: World, wider: World, token: Seq<char>)
    requires
        extends(world, wider),
        token_questions(world, token).len() == 0,
    ensures
        token_addresses(wider, token) == token_addresses(world, token),
        token_questions(wider, token).len() == 0,
{
    if is_name(token) {
        assert(world.system_known(token));
        if world.system_answer(token) is None {
            assert(world.backup_known(token));
        }
    }
}

/// The same for an exclusion.
pub proof fn lemma_exclusion_settled(world: World, wider: World, exclusion: Seq<char>)
    requires
        extends(world, wider),
        exclusion_questions(world, exclusion).len() == 0,
    ensures
        exclusion_entries(wider, exclusion) == exclusion_entries(world, exclusion),
        exclusion_questions(wider, exclusion).len() == 0,
{
    if cidr_notation(exclusion) is None && literal(exclusion) is None {
        assert(world.system_known(exclusion));
        if world.system_answer(exclusion) is None {
            assert(world.backup_known(exclusion));
        }
    }
}

/// The same for a list of tokens, and for which of them stand for nothing.
pub proof fn lemma_tokens_settled(world: World, wider: World, tokens: Seq<Seq<char>>)
    requires
        extends(world, wider),
        tokens_questions(world, tokens).len() == 0,
    ensures
        tokens_addresses(wider, tokens) == tokens_addresses(world, tokens),
        unresolved_tokens(wider, tokens) == unresolved_tokens(world, tokens),
        tokens_questions(wider, tokens).len() == 0,
    decreases tokens.len(),
{
    if tokens.len() > 0 {
        lemma_tokens_settled(world, wider, tokens.drop_last());
        lemma_token_settled(world, wider, tokens.last());
    }
}

/// The same for the lines of a target file.
pub proof fn lemma_lines_settled(world: World, wider: World, lines: Seq<Seq<char>>)
    requires
        extends(world, wider),
        lines_questions(world, lines).len() == 0,
    ensures
        lines_addresses(wider, lines) == lines_addresses(world, lines),
        lines_questions(wider, lines).len() == 0,
    decreases lines.len(),
{
    if lines.len() > 0 {
        lemma_lines_settled(world, wider, lines.drop_last());
        if !is_blank(lines.last()) {
            lemma_token_settled(world, wider, lines.last());
        }
    }
}

/// The same for the exclusions.
pub proof fn lemma_exclusions_settled(world: World, wider: World, exclusions: Seq<Seq<char>>)
    requires
        extends(world, wider),
        exclusions_questions(world, exclusions).len() == 0,
    ensures
        exclusions_entries(wider, exclusions) == exclusions_entries(world, exclusions),
        exclusions_questions(wider, exclusions).len() == 0,
    decreases exclusions.len(),
{
    if exclusions.len() > 0 {
        lemma_exclusions_settled(world, wider, exclusions.drop_last());
        lemma_exclusion_settled(world, wider, exclusions.last());
    }
}

/// The same for the target files: with nothing to be asked about the tokens
/// either way, the files that they name contribute the same in every wider
/// world, and the same tokens stand for nothing at all.
pub proof fn lemma_files_settled(world: World, wider: World, tokens: Seq<Seq<char>>)
    requires
        extends(world, wider),
        tokens_questions(world, tokens).len() == 0,
        paths_questions(world, tokens).len() == 0,
    ensures
        files_addresses(wider, unresolved_tokens(wider, tokens)) == files_addresses(
            world,
            unresolved_tokens(world, tokens),
        ),
        failed_paths(wider, unresolved_tokens(wider, tokens)) == failed_paths(
            world,
            unresolved_tokens(world, tokens),
        ),
        paths_questions(wider, tokens).len() == 0,
    decreases tokens.len(),
{
    if tokens.len() > 0 {
        let before = tokens.drop_last();
        let last = tokens.last();
        lemma_files_settled(world, wider, before);
        lemma_tokens_settled(world, wider, before);
        lemma_token_settled(world, wider, last);
        if token_addresses(world, last).len() == 0 {
            let paths = unresolved_tokens(world, before);
            assert(paths.push(last).drop_last() =~= paths);
            assert(world.file_known(last));
            match world.file_answer(last) {
                FileView::Text(text) => {
                    lemma_lines_settled(world, wider, lines(text));
                },
                _ => {},
            }
            assert(file_outcome(wider, last) == file_outcome(world, last));
        }
    }
}

/// Once nothing is pending, the targets are settled: in every world that
/// holds the answers recorded so far, whatever else it holds, the addresses
/// are the same, the same tokens stand for nothing, the resolver is built on
/// the same servers, and nothing is pending.
pub proof fn lemma_settled(world: World, wider: World, input: Opts)
    requires
        extends(world, wider),
        pending(world, input).len() == 0,
    ensures
        target_addresses(wider, input) == target_addresses(world, input),
        unresolved_targets(wider, input) == unresolved_targets(world, input),
        resolver_choice(wider, input.resolver) == resolver_choice(world, input.resolver),
        pending(wider, input).len() == 0,
{
    let tokens = texts(input.addresses@);
    let exclusions = optional_texts(input.exclude_addresses);
    lemma_tokens_settled(world, wider, tokens);
    lemma_files_settled(world, wider, tokens);
    lemma_exclusions_settled(world, wider, exclusions);
    match input.resolver {
        Some(source) => {
            assert(world.file_known(source@));
        },
        None => {},
    }
}

/// Whether the answer to a question is not recorded in `world`.
pub open spec fn unanswered(world: World, question: QuestionView) -> bool {
    match question {
        QuestionView::System(host) => !world.system_known(host),
        QuestionView::Backup(host) => !world.backup_known(host),
        QuestionView::File(path) => !world.file_known(path),
    }
}

/// Whether none of the questions has its answer recorded in `world`.
pub open spec fn all_unanswered(world: World, questions: Seq<QuestionView>) -> bool {
    forall|i: int| 0 <= i < questions.len() ==> unanswered(world, #[trigger] questions[i])
}

/// Only what is not recorded is asked about tokens.
pub proof fn lemma_tokens_unanswered(world: World, tokens: Seq<Seq<char>>)
    ensures
        all_unanswered(world, tokens_questions(world, tokens)),
    decreases tokens.len(),
{
    if tokens.len() > 0 {
        lemma_tokens_unanswered(world, tokens.drop_last());
    }
}

/// Only what is not recorded is asked about the lines of a target file.
pub proof fn lemma_lines_unanswered(world: World, lines: Seq<Seq<char>>)
    ensures
        all_unanswered(world, lines_questions(world, lines)),
    decreases lines.len(),
{
    if lines.len() > 0 {
        lemma_lines_unanswered(world, lines.drop_last());
    }
}

/// Only what is not recorded is asked about target files.
pub proof fn lemma_paths_unanswered(world: World, tokens: Seq<Seq<char>>)
    ensures
        all_unanswered(world, paths_questions(world, tokens)),
    decreases tokens.len(),
{
    if tokens.len() > 0 {
        lemma_paths_unanswered(world, tokens.drop_last());
        match world.file_answer(tokens.last()) {
            FileView::Text(text) => {
                lemma_lines_unanswered(world, lines(text));
            },
            _ => {},
        }
    }
}

/// Only what is not recorded is asked about exclusions.
pub proof fn lemma_exclusions_unanswered(world: World, exclusions: Seq<Seq<char>>)
    ensures
        all_unanswered(world, exclusions_questions(world, exclusions)),
    decreases exclusions.len(),
{
    if exclusions.len() > 0 {
        lemma_exclusions_unanswered(world, exclusions.drop_last());
    }
}

/// Nothing is asked twice: every pending question is one whose answer is
/// not recorded, so recording the answer takes it off the list for good.
pub proof fn lemma_pending_unanswered(world: World, input: Opts)
    ensures
        all_unanswered(world, pending(world, input)),
{
    lemma_tokens_unanswered(world, texts(input.addresses@));
    lemma_paths_unanswered(world, texts(input.addresses@));
    lemma_exclusions_unanswered(world, optional_texts(input.exclude_addresses));
}

} // verus!
