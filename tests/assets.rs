use vk_rays::gltf_mesh::{material_textures, TextureCache};
use vk_rays::render_device::{BindlessRegistry, DEFAULT_NORMAL_TEXTURE_IDX, WHITE_TEXTURE_IDX};
use vk_rays::render_texture::{
    format_for_image, matches_extent, padd_pixel_bytes_rgba_unorm, rgba8_pixels, source_channels,
    SourceFormat, TextureFormat,
};
use vk_rays::vk_utils::{aligned_size, MaybeThere};
use vk_rays::vulkan_asset::{AssetEvent, VulkanAssets};

#[test]
fn aligned_sizes() {
    assert_eq!(aligned_size(13, 8), 16);
    assert_eq!(aligned_size(16, 8), 16);
    assert_eq!(aligned_size(0, 4), 0);
    assert_eq!(aligned_size(33, 32), 64);
    assert_eq!(aligned_size(5, 1), 5);
}

#[test]
fn maybe_there_is_taken_once() {
    let mut m = MaybeThere::new(5u32);
    assert!(m.is_there());
    assert_eq!(*m.get(), 5);
    assert_eq!(m.manually_drop(), 5);
    assert!(!m.is_there());
}

#[test]
fn asset_events_queue_first_insertion_only() {
    let mut assets: VulkanAssets<String> = VulkanAssets::new();
    assert!(assets.on_event(AssetEvent::Added(1), true));
    assert!(assets.contains(1));
    assert_eq!(assets.get(1), None);
    assert!(!assets.on_event(AssetEvent::Added(1), true));
    assert!(!assets.on_event(AssetEvent::LoadedWithDependencies(1), true));
    assert!(assets.on_event(AssetEvent::Modified(1), true));
    assert!(!assets.on_event(AssetEvent::Modified(1), false));
    assert!(!assets.on_event(AssetEvent::Added(2), false));
    assert!(!assets.contains(2));
    assert!(!assets.on_event(AssetEvent::Removed(1), true));
    assert!(!assets.on_event(AssetEvent::Unused(1), true));
    assert!(assets.on_event(AssetEvent::LoadedWithDependencies(3), true));
}

#[test]
fn results_replace_and_hand_back_old_resources() {
    let mut assets: VulkanAssets<String> = VulkanAssets::new();
    assets.on_event(AssetEvent::Added(1), true);
    assert_eq!(assets.apply_result(1, "first".to_string()), None);
    assert_eq!(assets.get(1).map(|s| s.as_str()), Some("first"));
    assert_eq!(assets.apply_result(1, "second".to_string()), Some("first".to_string()));
    assert_eq!(assets.get(1).map(|s| s.as_str()), Some("second"));
    assert_eq!(assets.apply_result(9, "late".to_string()), None);
    assets.on_event(AssetEvent::Added(4), true);
    let (mut loaded, loading) = assets.drain();
    loaded.sort();
    assert_eq!(loaded, vec!["late".to_string(), "second".to_string()]);
    assert_eq!(loading, 1);
}

#[test]
fn padding_rgb_and_grey() {
    let rgb = [1u8, 2, 3, 4, 5, 6];
    assert_eq!(padd_pixel_bytes_rgba_unorm(&rgb, 3, 2, 1), vec![1, 2, 3, 255, 4, 5, 6, 255]);
    let grey = [9u8, 8];
    assert_eq!(padd_pixel_bytes_rgba_unorm(&grey, 1, 1, 2), vec![9, 0, 0, 255, 8, 0, 0, 255]);
    assert_eq!(padd_pixel_bytes_rgba_unorm(&[], 3, 0, 0), Vec::<u8>::new());
}

#[test]
fn source_formats() {
    let px = vec![1u8, 2, 3];
    assert_eq!(rgba8_pixels(SourceFormat::R8G8B8, &px, 1, 1), Some(vec![1, 2, 3, 255]));
    assert_eq!(rgba8_pixels(SourceFormat::R8, &vec![7], 1, 1), Some(vec![7, 0, 0, 255]));
    assert_eq!(rgba8_pixels(SourceFormat::R8G8B8A8, &vec![1, 2, 3, 4], 1, 1), Some(vec![1, 2, 3, 4]));
    assert_eq!(rgba8_pixels(SourceFormat::R16G16, &vec![0; 4], 1, 1), None);
    assert_eq!(rgba8_pixels(SourceFormat::R32G32B32Float, &vec![0; 12], 1, 1), None);
    assert_eq!(source_channels(SourceFormat::R8G8B8), 3);
    assert_eq!(source_channels(SourceFormat::R16), 0);
}

#[test]
fn upload_formats() {
    assert_eq!(format_for_image(64, 4, 4), Some(TextureFormat::R8G8B8A8Unorm));
    assert_eq!(format_for_image(256, 4, 4), Some(TextureFormat::R32G32B32A32Sfloat));
    assert_eq!(format_for_image(48, 4, 4), None);
    assert!(matches_extent(TextureFormat::R8G8B8A8Unorm, 64, 4, 4));
    assert!(!matches_extent(TextureFormat::R32G32B32A32Sfloat, 64, 4, 4));
}

#[test]
fn texture_cache_reuses_slots() {
    let mut reg = BindlessRegistry::with_defaults(10, 11);
    let mut cache = TextureCache::new();
    assert_eq!(cache.lookup(0), None);
    assert_eq!(cache.load_cached_texture(&mut reg, 0, None), WHITE_TEXTURE_IDX);
    assert_eq!(cache.lookup(0), None);
    assert_eq!(cache.load_cached_texture(&mut reg, 3, Some(77)), 2);
    assert_eq!(cache.lookup(3), Some(2));
    assert_eq!(reg.len(), 3);
    assert_eq!(cache.load_cached_texture(&mut reg, 5, Some(77)), 2);
    assert_eq!(reg.len(), 3);
    assert_eq!(cache.load_cached_texture(&mut reg, 3, Some(78)), 2);
    assert_eq!(reg.len(), 3);
    assert_eq!(reg.get_bindless_texture_index(78), None);
}

#[test]
fn material_texture_defaults() {
    let t = material_textures(Some(5), None, None, Some(6), None);
    assert_eq!(t.base_color_texture, 5);
    assert_eq!(t.base_emissive_texture, WHITE_TEXTURE_IDX);
    assert_eq!(t.specular_transmission_texture, WHITE_TEXTURE_IDX);
    assert_eq!(t.metallic_roughness_texture, 6);
    assert_eq!(t.normal_texture, DEFAULT_NORMAL_TEXTURE_IDX);
    assert_eq!(material_textures(None, None, None, None, Some(9)).normal_texture, 9);
}
