use guest_profiler::symbols::{
    name_group, names_or_placeholder, resolve, resolve_stack, stack_names, to_file_relative,
    SymbolError,
};

fn names(list: &[&str]) -> Vec<String> {
    list.iter().map(|s| s.to_string()).collect()
}

fn own_symbols() -> addr2line::Loader {
    match addr2line::Loader::new("/proc/self/exe") {
        Ok(loader) => loader,
        Err(e) => panic!("the symbols of the running program cannot be loaded: {}", e),
    }
}

fn found(list: &[Option<&str>]) -> Option<Vec<Option<String>>> {
    Some(list.iter().map(|n| n.map(|s| s.to_string())).collect())
}

#[test]
fn the_load_offset_is_taken_off() {
    assert_eq!(to_file_relative(0x55a11002000, 0x55a10000000), Some(0x1002000));
    assert_eq!(to_file_relative(0x2000, 0x2000), Some(0));
    assert_eq!(to_file_relative(0x1fff, 0x2000), None);
    assert_eq!(to_file_relative(0, u64::MAX), None);
    assert_eq!(to_file_relative(u64::MAX, 0), Some(u64::MAX));
}

#[test]
fn one_function_is_its_own_group() {
    assert_eq!(name_group(&found(&[Some("main")])), Ok(names(&["main"])));
}

#[test]
fn inlined_functions_come_outermost_first() {
    assert_eq!(
        name_group(&found(&[Some("inner"), Some("middle"), Some("outer")])),
        Ok(names(&["outer", "middle", "inner"]))
    );
}

#[test]
fn an_address_without_names_says_why() {
    assert_eq!(name_group(&None), Err(SymbolError::LookupFailed));
    assert_eq!(name_group(&found(&[])), Err(SymbolError::NoFrames));
    assert_eq!(name_group(&found(&[None])), Err(SymbolError::Unnamed));
    assert_eq!(name_group(&found(&[Some("inner"), None])), Err(SymbolError::Unnamed));
    assert_eq!(name_group(&found(&[None, Some("outer")])), Err(SymbolError::Unnamed));
}

#[test]
fn a_group_without_names_shows_the_placeholder() {
    assert_eq!(names_or_placeholder(&Ok(names(&["outer", "inner"]))), names(&["outer", "inner"]));
    assert_eq!(names_or_placeholder(&Err(SymbolError::LookupFailed)), names(&["???"]));
    assert_eq!(names_or_placeholder(&Err(SymbolError::NoFrames)), names(&["???"]));
    assert_eq!(names_or_placeholder(&Err(SymbolError::Unnamed)), names(&["???"]));
    assert_eq!(names_or_placeholder(&Err(SymbolError::OutsideModule)), names(&["???"]));
}

#[test]
fn the_names_of_a_stack_follow_its_groups() {
    let groups = vec![
        Ok(names(&["main"])),
        Err(SymbolError::NoFrames),
        Ok(names(&["outer", "inner"])),
        Err(SymbolError::OutsideModule),
    ];
    assert_eq!(stack_names(&groups), names(&["main", "???", "outer", "inner", "???"]));
    assert_eq!(stack_names(&Vec::new()), Vec::<String>::new());
}

#[test]
fn an_address_below_the_load_offset_is_not_searched_for() {
    let loader = own_symbols();
    assert_eq!(resolve(&loader, 0x1000, 0x2000), Err(SymbolError::OutsideModule));
    assert_eq!(resolve(&loader, 0, 1), Err(SymbolError::OutsideModule));
    let groups = resolve_stack(&loader, &vec![0x10, 0x20, 0x30], 0x1000);
    assert_eq!(groups, vec![Err(SymbolError::OutsideModule); 3]);
    assert_eq!(stack_names(&groups), names(&["???", "???", "???"]));
}

#[test]
fn the_same_address_has_the_same_names_again() {
    let loader = own_symbols();
    let offset = 0x5000_0000u64;
    for step in 0..2048u64 {
        let address = offset + step * 0x140;
        let first = resolve(&loader, address, offset);
        let second = resolve(&loader, address, offset);
        assert_eq!(first, second);
        match first {
            Ok(group) => assert!(!group.is_empty()),
            Err(e) => assert_ne!(e, SymbolError::OutsideModule),
        }
    }
    let stack: Vec<u64> = (0..64u64).map(|step| offset + step * 0x140).collect();
    let groups = resolve_stack(&loader, &stack, offset);
    assert_eq!(groups.len(), stack.len());
    for (i, group) in groups.iter().enumerate() {
        assert_eq!(*group, resolve(&loader, stack[stack.len() - 1 - i], offset));
    }
}

#[test]
fn the_last_address_of_all_has_no_names() {
    let loader = own_symbols();
    assert_eq!(resolve(&loader, u64::MAX, 0), Err(SymbolError::NoFrames));
    assert_eq!(resolve(&loader, u64::MAX - 1, 0), resolve(&loader, u64::MAX - 1, 0));
    assert_ne!(resolve(&loader, u64::MAX - 1, 0), Err(SymbolError::OutsideModule));
    assert_eq!(resolve(&loader, u64::MAX, 1), resolve(&loader, u64::MAX, 1));
    let groups = resolve_stack(&loader, &vec![u64::MAX, 0, u64::MAX], 0);
    assert_eq!(groups.len(), 3);
    assert_eq!(groups[0], Err(SymbolError::NoFrames));
    assert_eq!(groups[1], resolve(&loader, 0, 0));
    assert_eq!(groups[2], Err(SymbolError::NoFrames));
}

#[test]
fn only_an_address_below_the_load_offset_is_outside_the_module() {
    let loader = own_symbols();
    let offset = 0x4000u64;
    let stack = vec![0x3fff, 0x4000, 0, 0x4001, u64::MAX, 0x10];
    let groups = resolve_stack(&loader, &stack, offset);
    assert_eq!(groups.len(), stack.len());
    for (i, group) in groups.iter().enumerate() {
        let address = stack[stack.len() - 1 - i];
        let outside = *group == Err(SymbolError::OutsideModule);
        assert_eq!(outside, address < offset, "address {:#x}", address);
        assert_eq!(*group, resolve(&loader, address, offset));
        if let Ok(names) = group {
            assert!(!names.is_empty());
        }
    }
    assert!(resolve_stack(&loader, &Vec::new(), offset).is_empty());
}
