use matrixagon2::device::{find_memory_type, find_physical_device, find_queue_families, is_device_suitable};

#[test]
fn memory_type_is_the_first_allowed_with_the_properties() {
    let flags = vec![0b0001, 0b0110, 0b0111, 0b0110];
    assert_eq!(find_memory_type(0b1111, &flags, 0b0110), 1);
    assert_eq!(find_memory_type(0b1101, &flags, 0b0110), 2);
    assert_eq!(find_memory_type(0b1000, &flags, 0b0110), 3);
    assert_eq!(find_memory_type(0b1111, &flags, 0), 0);
    assert_eq!(find_memory_type(0b0100, &flags, 0b0111), 2);
}

#[test]
fn queue_family_needs_graphics_and_presentation() {
    let flags = vec![0b0010, 0b0001, 0b0011, 0b0001];
    assert_eq!(find_queue_families(&flags, &vec![true, false, true, true]), Some(2));
    assert_eq!(find_queue_families(&flags, &vec![true, true, false, false]), Some(1));
    assert_eq!(find_queue_families(&flags, &vec![true, false, false, false]), None);
    assert_eq!(find_queue_families(&vec![], &vec![]), None);
}

fn names(v: &[&str]) -> Vec<String> {
    v.iter().map(|s| s.to_string()).collect()
}

#[test]
fn suitable_device_has_everything() {
    let required = names(&["VK_KHR_swapchain"]);
    let available = names(&["VK_KHR_maintenance1", "VK_KHR_swapchain"]);
    assert!(is_device_suitable(&required, &available, true, true, true, true, true));
    assert!(!is_device_suitable(&required, &available, false, true, true, true, true));
    assert!(!is_device_suitable(&required, &available, true, false, true, true, true));
    assert!(!is_device_suitable(&required, &available, true, true, false, true, true));
    assert!(!is_device_suitable(&required, &available, true, true, true, false, true));
    assert!(!is_device_suitable(&required, &available, true, true, true, true, false));
    assert!(!is_device_suitable(&required, &names(&["VK_KHR_maintenance1"]), true, true, true, true, true));
    assert!(is_device_suitable(&names(&[]), &names(&[]), true, true, true, true, true));
}

#[test]
fn device_search_ends_on_the_first_suitable_or_the_last() {
    assert_eq!(find_physical_device(&vec![false, true, true]), Some(1));
    assert_eq!(find_physical_device(&vec![false, false, false]), Some(2));
    assert_eq!(find_physical_device(&vec![true]), Some(0));
    assert_eq!(find_physical_device(&vec![]), None);
}
