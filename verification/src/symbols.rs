//! From return addresses to function names.
//!
//! The names come from the debug information of the guest's executable, which
//! `addr2line` reads. What it answers for an address depends on the files it
//! has open, so nothing is claimed of the answer itself: every answer is sorted
//! out here, and an address without names gets a placeholder.

use vstd::prelude::*;
use vstd::string::*;

verus! {

/// The debug information of one executable, as `addr2line` holds it.
#[verifier::external_type_specification]
#[verifier::external_body]
pub struct ExLoader(addr2line::Loader);

/// Why an address has no names.
#[derive(Clone, Copy, Debug, PartialEq, Eq, Structural)]
pub enum SymbolError {
    /// The address lies below the address at which the executable is loaded.
    OutsideModule,
    /// The debug information could not be searched or read.
    LookupFailed,
    /// The debug information knows no function at the address.
    NoFrames,
    /// A function at the address has no name that can be read.
    Unnamed,
}

/// Asks `addr2line::Loader::find_frames` for the functions at `probe`, an
/// address relative to the file, and reads the iterator it returns to its end.
/// `None` stands for a search that failed, at the start or on the way. Each
/// function found is there with its demangled name, innermost first; `None`
/// in place of a name stands for a function without one, or with one that
/// `FunctionName::demangle` could not read. Nothing is claimed of what is found.
/// The search adds one to the address it is given, so the last address of all
/// is kept from it.
#[verifier::external_body]
fn find_frame_names(loader: &addr2line::Loader, probe: u64) -> (found: Option<Vec<Option<String>>>)
    requires
        probe < u64::MAX,
{
    let mut frames = loader.find_frames(probe).ok()?;
    let mut names = Vec::new();
    while let Some(frame) = frames.next().ok()? {
        names.push(frame.function.and_then(|f| f.demangle().ok().map(|n| n.into_owned())));
    }
    Some(names)
}

/// The name that stands for an address without names.
pub open spec fn placeholder() -> Seq<char> {
    "???"@
}

/// The address relative to the file, of a return address at run time.
pub open spec fn file_relative(address: u64, load_offset: u64) -> Option<u64> {
    if address < load_offset {
        None
    } else {
        Some((address - load_offset) as u64)
    }
}

/// The names of one address, outermost first, out of what the search found:
/// the functions found, in reverse, if there is one at least and each has a
/// name.
pub open spec fn group_of(found: Option<Seq<Option<Seq<char>>>>) -> Result<
    Seq<Seq<char>>,
    SymbolError,
> {
    match found {
        None => Err(SymbolError::LookupFailed),
        Some(frames) => if frames.len() == 0 {
            Err(SymbolError::NoFrames)
        } else if exists|i: int| 0 <= i < frames.len() && frames[i] is None {
            Err(SymbolError::Unnamed)
        } else {
            Ok(Seq::new(frames.len(), |i: int| frames[frames.len() - 1 - i].unwrap()))
        },
    }
}

/// A group of names as sequences of characters.
pub open spec fn group_view(group: Result<Vec<String>, SymbolError>) -> Result<
    Seq<Seq<char>>,
    SymbolError,
> {
    match group {
        Ok(names) => Ok(names.deep_view()),
        Err(e) => Err(e),
    }
}

/// Groups of names as sequences of characters.
pub open spec fn groups_view(groups: Seq<Result<Vec<String>, SymbolError>>) -> Seq<
    Result<Seq<Seq<char>>, SymbolError>,
> {
    Seq::new(groups.len(), |i: int| group_view(groups[i]))
}

/// The names that a group shows in a stack: its own, or the placeholder alone
/// where it has none.
pub open spec fn shown(group: Result<Seq<Seq<char>>, SymbolError>) -> Seq<Seq<char>> {
    match group {
        Ok(names) => names,
        Err(_) => seq![placeholder()],
    }
}

/// The names of a whole stack: those that each group shows, in the order of
/// the groups.
pub open spec fn names_of(groups: Seq<Result<Seq<Seq<char>>, SymbolError>>) -> Seq<Seq<char>>
    decreases groups.len(),
{
    if groups.len() == 0 {
        Seq::empty()
    } else {
        names_of(groups.drop_last()) + shown(groups.last())
    }
}

/// Translates a return address into an address relative to the file.
pub fn to_file_relative(address: u64, load_offset: u64) -> (probe: Option<u64>)
    ensures
        probe == file_relative(address, load_offset),
{
    if address < load_offset {
        None
    } else {
        Some(address - load_offset)
    }
}

/// Sorts out what a search found: the names of the address, outermost first,
/// or the reason why it has none.
pub fn name_group(found: &Option<Vec<Option<String>>>) -> (group: Result<Vec<String>, SymbolError>)
    ensures
        group_view(group) == group_of(found.deep_view()),
{
    match found {
        None => Err(SymbolError::LookupFailed),
        Some(frames) => {
            let ghost model = frames.deep_view();
            let count: usize = frames.len();
            if count == 0 {
                return Err(SymbolError::NoFrames);
            }
            let mut names: Vec<String> = Vec::new();
            let mut left: usize = count;
            assert(found.deep_view() == Some(model));
            while left > 0
                invariant
                    left <= count,
                    count == frames@.len(),
                    count > 0,
                    model == frames.deep_view(),
                    found.deep_view() == Some(model),
                    names@.len() == count - left,
                    forall|i: int| left <= i < count ==> (#[trigger] model[i]) is Some,
                    forall|k: int|
                        0 <= k < count - left ==> (#[trigger] names@[k])@ == model[count - 1
                            - k].unwrap(),
                decreases left,
            {
                left -= 1;
                assert(model[left as int] == frames@[left as int].deep_view());
                match &frames[left] {
                    None => {
                        assert(0 <= left < model.len() && model[left as int] is None);
                        return Err(SymbolError::Unnamed);
                    },
                    Some(name) => {
                        names.push(name.clone());
                    },
                }
            }
            assert(names.deep_view() =~= Seq::new(
                model.len(),
                |i: int| model[model.len() - 1 - i].unwrap(),
            ));
            Ok(names)
        },
    }
}

/// The names that a group shows in a stack.
pub fn names_or_placeholder(group: &Result<Vec<String>, SymbolError>) -> (names: Vec<String>)
    ensures
        names.deep_view() == shown(group_view(*group)),
{
    match group {
        Ok(found) => {
            let mut names: Vec<String> = Vec::new();
            let mut i: usize = 0;
            while i < found.len()
                invariant
                    i <= found@.len(),
                    names@.len() == i,
                    forall|k: int| 0 <= k < i ==> (#[trigger] names@[k])@ == found@[k]@,
                decreases found@.len() - i,
            {
                names.push(found[i].clone());
                i += 1;
            }
            assert(names.deep_view() =~= found.deep_view());
            names
        },
        Err(_) => {
            let mut names: Vec<String> = Vec::new();
            names.push(String::from_str("???"));
            assert(names.deep_view() =~= seq![placeholder()]);
            names
        },
    }
}

/// The names of a whole stack, out of the groups of its addresses.
pub fn stack_names(groups: &Vec<Result<Vec<String>, SymbolError>>) -> (names: Vec<String>)
    ensures
        names.deep_view() == names_of(groups_view(groups@)),
{
    let ghost model = groups_view(groups@);
    let mut names: Vec<String> = Vec::new();
    let mut i: usize = 0;
    assert(model.take(0) =~= Seq::empty());
    assert(names.deep_view() =~= Seq::<Seq<char>>::empty());
    while i < groups.len()
        invariant
            i <= groups@.len(),
            model == groups_view(groups@),
            names.deep_view() == names_of(model.take(i as int)),
        decreases groups@.len() - i,
    {
        let ghost before = names.deep_view();
        let mut more = names_or_placeholder(&groups[i]);
        let ghost added = more.deep_view();
        names.append(&mut more);
        proof {
            assert(model.take(i + 1).drop_last() =~= model.take(i as int));
            assert(model.take(i + 1).last() == group_view(groups@[i as int]));
            assert(names.deep_view() =~= before + added);
        }
        i += 1;
    }
    assert(model.take(groups@.len() as int) =~= model);
    names
}

/// Looks up the names of one return address. An address below the load offset
/// is not searched for. Nor is the last address of all: no function holds it,
/// since a function ends before the address that follows its last one.
pub fn resolve(loader: &addr2line::Loader, address: u64, load_offset: u64) -> (group: Result<
    Vec<String>,
    SymbolError,
>)
    ensures
        address < load_offset ==> group == Err::<Vec<String>, SymbolError>(
            SymbolError::OutsideModule,
        ),
        file_relative(address, load_offset) == Some(u64::MAX) ==> group == Err::<
            Vec<String>,
            SymbolError,
        >(SymbolError::NoFrames),
        group matches Ok(names) ==> names@.len() > 0,
        group matches Err(e) ==> (e == SymbolError::OutsideModule <==> address < load_offset),
{
    match to_file_relative(address, load_offset) {
        None => Err(SymbolError::OutsideModule),
        Some(probe) => {
            if probe == u64::MAX {
                return Err(SymbolError::NoFrames);
            }
            let found = find_frame_names(loader, probe);
            let group = name_group(&found);
            proof {
                if group is Ok {
                    assert(group_view(group).unwrap().len() == group.unwrap()@.len());
                }
            }
            group
        },
    }
}

/// Looks up the names of a stack of return addresses. The stack comes
/// innermost first; the groups go outermost first. An address is reported as
/// outside the module if and only if it lies below the load offset. Every other
/// address is searched for, but the last address of all, which has no names.
pub fn resolve_stack(loader: &addr2line::Loader, stack: &Vec<u64>, load_offset: u64) -> (groups:
    Vec<Result<Vec<String>, SymbolError>>)
    ensures
        groups@.len() == stack@.len(),
        forall|i: int|
            0 <= i < stack@.len() ==> {
                let address = stack@[stack@.len() - 1 - i];
                &&& (#[trigger] groups@[i]) matches Ok(names) ==> names@.len() > 0
                &&& address < load_offset ==> groups@[i] == Err::<Vec<String>, SymbolError>(
                    SymbolError::OutsideModule,
                )
                &&& groups@[i] matches Err(e) ==> (e == SymbolError::OutsideModule <==> address
                    < load_offset)
                &&& file_relative(address, load_offset) == Some(u64::MAX) ==> groups@[i] == Err::<
                    Vec<String>,
                    SymbolError,
                >(SymbolError::NoFrames)
            },
{
    let mut groups: Vec<Result<Vec<String>, SymbolError>> = Vec::new();
    let count: usize = stack.len();
    let mut left: usize = count;
    while left > 0
        invariant
            left <= count,
            count == stack@.len(),
            groups@.len() == count - left,
            forall|i: int|
                0 <= i < count - left ==> {
                    let address = stack@[count - 1 - i];
                    &&& (#[trigger] groups@[i]) matches Ok(names) ==> names@.len() > 0
                    &&& address < load_offset ==> groups@[i] == Err::<Vec<String>, SymbolError>(
                        SymbolError::OutsideModule,
                    )
                    &&& groups@[i] matches Err(e) ==> (e == SymbolError::OutsideModule <==> address
                        < load_offset)
                    &&& file_relative(address, load_offset) == Some(u64::MAX) ==> groups@[i]
                        == Err::<Vec<String>, SymbolError>(SymbolError::NoFrames)
                },
        decreases left,
    {
        left -= 1;
        groups.push(resolve(loader, stack[left], load_offset));
    }
    groups
}

} // verus!
