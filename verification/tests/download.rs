use walkers::download::classify_decode;
use walkers::download::classify_response;
use walkers::download::is_success_status;
use walkers::download::DownloadPipeline;
use walkers::download::FetchError;
use walkers::download::FetchOutcome;
use walkers::download::PipelineEnd;
use walkers::providers;
use walkers::providers::MapType;
use walkers::providers::Providers;
use walkers::Tile;
use walkers::TileId;

#[test]
fn status_classification() {
    assert!(is_success_status(200));
    assert!(is_success_status(204));
    assert!(is_success_status(299));
    assert!(!is_success_status(199));
    assert!(!is_success_status(300));
    assert!(!is_success_status(404));
    assert_eq!(classify_response(FetchOutcome::Transport), Err(FetchError::Transport));
    assert_eq!(
        classify_response(FetchOutcome::Response(404, vec![1])),
        Err(FetchError::Status(404))
    );
    assert_eq!(classify_response(FetchOutcome::Response(200, vec![1, 2])), Ok(vec![1, 2]));
}

#[test]
fn decode_failure_is_its_own_class() {
    assert_eq!(classify_decode(None).unwrap_err(), FetchError::Decode);
    let tile = classify_decode(Some(Tile::new(1, 1, vec![0u8; 4]))).unwrap();
    assert_eq!(tile.width(), 1);
    assert_eq!(tile.height(), 1);
}

#[test]
fn pipeline_builds_urls_until_requests_close() {
    let provider = providers::new(Providers::OpenStreetMap, MapType::Standart);
    let mut pipeline = DownloadPipeline::new(provider);
    assert!(pipeline.ended().is_none());
    let fetch = pipeline.next_request(Some(TileId { x: 1, y: 1, zoom: 1 })).unwrap();
    assert_eq!(fetch.0, TileId { x: 1, y: 1, zoom: 1 });
    assert_eq!(fetch.1, "https://tile.openstreetmap.org/1/1/1.png");
    assert!(pipeline.ended().is_none());
    let mut closing = DownloadPipeline::new(provider);
    assert!(closing.next_request(None).is_none());
    assert_eq!(closing.ended(), Some(PipelineEnd::RequestsClosed));
}

#[test]
fn full_response_channel_only_drops_the_tile() {
    let provider = providers::new(Providers::Geoportal, MapType::Standart);
    let mut pipeline = DownloadPipeline::new(provider);
    pipeline.response_push_failed(false);
    assert!(pipeline.ended().is_none());
    pipeline.response_push_failed(true);
    assert_eq!(pipeline.ended(), Some(PipelineEnd::ResponsesClosed));
}
