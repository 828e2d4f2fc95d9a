use seat_booking::bus;
use seat_booking::bus::Bus;
use seat_booking::bus_model;
use seat_booking::bus_model::BusModel;
use seat_booking::create_bus::CreateBus;
use seat_booking::create_bus_model::CreateBusModel;
use seat_booking::create_route;
use seat_booking::create_route::CreateRoute;
use seat_booking::create_stop::CreateStop;
use seat_booking::create_trip;
use seat_booking::create_trip::CreateTrip;
use seat_booking::route;
use seat_booking::route::Route;
use seat_booking::show_bus::ShowBus;
use seat_booking::show_bus_model::ShowBusModel;
use seat_booking::show_route::ShowRoute;
use seat_booking::show_stop::ShowStop;
use seat_booking::show_trip::ShowTrip;
use seat_booking::stop;
use seat_booking::trip;
use seat_booking::trip::Trip;
use seat_booking::Database;

#[test]
fn default_store_is_empty() {
    let database = Database::default();
    assert!(database.bus_models.is_empty());
    assert!(database.buses.is_empty());
    assert!(database.stops.is_empty());
    assert!(database.route_stops.is_empty());
    assert!(database.routes.is_empty());
    assert!(database.trips.is_empty());
    assert!(database.seat_reservations.is_empty());
}

#[test]
fn create_bus_model_appends() {
    let mut database = Database::default();
    database.create_bus_model(BusModel {
        id: bus_model::Id(0),
        name: "Modelo 1".to_string(),
        number_of_seats: 1,
    });
    database.create_bus_model(BusModel {
        id: bus_model::Id(1),
        name: "Modelo 2".to_string(),
        number_of_seats: 40,
    });
    assert_eq!(database.bus_models.len(), 2);
    assert_eq!(database.bus_models[0].name, "Modelo 1");
    assert_eq!(database.bus_models[1].id, bus_model::Id(1));
    assert_eq!(database.bus_models[1].number_of_seats, 40);
    assert!(database.buses.is_empty());
    assert!(database.trips.is_empty());
    assert_eq!(
        database.show_bus_model(bus_model::Id(1)).unwrap().name,
        "Modelo 2"
    );
}

#[test]
fn create_bus_appends() {
    let mut database = Database::default();
    database.create_bus(Bus {
        id: bus::Id(3),
        bus_model_id: bus_model::Id(9),
    });
    database.create_bus(Bus {
        id: bus::Id(3),
        bus_model_id: bus_model::Id(10),
    });
    assert_eq!(database.buses.len(), 2);
    assert!(database.bus_models.is_empty());
    let found = database.show_bus(bus::Id(3)).unwrap();
    assert_eq!(found.id, bus::Id(3));
    assert_eq!(found.bus_model_id, bus_model::Id(9));
    assert!(database.show_bus(bus::Id(4)).is_none());
}

#[test]
fn create_stop_appends() {
    let mut database = Database::default();
    database.create_stop(stop::Stop {
        id: stop::Id(0),
        name: "Stop 0".to_string(),
    });
    database.create_stop(stop::Stop {
        id: stop::Id(1),
        name: "Stop 1".to_string(),
    });
    assert_eq!(database.stops.len(), 2);
    assert_eq!(database.show_stop(stop::Id(0)).unwrap().name, "Stop 0");
    assert_eq!(database.show_stop(stop::Id(1)).unwrap().name, "Stop 1");
    assert!(database.show_stop(stop::Id(2)).is_none());
}

#[test]
fn create_route_appends_the_route_and_its_stops() {
    let mut database = Database::default();
    database.create_route(create_route::Form {
        route: Route { id: route::Id(0) },
        stops: vec![
            route::Stop {
                id: route::StopId(0),
                index: 0,
                stop_id: stop::Id(0),
                route_id: route::Id(0),
            },
            route::Stop {
                id: route::StopId(1),
                index: 1,
                stop_id: stop::Id(1),
                route_id: route::Id(0),
            },
        ],
    });
    database.create_route(create_route::Form {
        route: Route { id: route::Id(1) },
        stops: vec![route::Stop {
            id: route::StopId(2),
            index: 0,
            stop_id: stop::Id(1),
            route_id: route::Id(1),
        }],
    });
    assert_eq!(database.routes.len(), 2);
    assert_eq!(database.route_stops.len(), 3);
    assert_eq!(database.route_stops[0].id, route::StopId(0));
    assert_eq!(database.route_stops[1].id, route::StopId(1));
    assert_eq!(database.route_stops[1].index, 1);
    assert_eq!(database.route_stops[2].id, route::StopId(2));
    assert_eq!(database.route_stops[2].route_id, route::Id(1));
    assert_eq!(database.show_route(route::Id(1)).unwrap().id, route::Id(1));
    assert!(database.show_route(route::Id(2)).is_none());
}

#[test]
fn create_trip_appends() {
    let mut database = Database::default();
    database.create_trip(create_trip::Form {
        trip: Trip {
            id: trip::Id(0),
            route_id: route::Id(5),
            bus_id: bus::Id(6),
        },
    });
    assert_eq!(database.trips.len(), 1);
    assert_eq!(
        database.show_trip(trip::Id(0)),
        Some(&Trip {
            id: trip::Id(0),
            route_id: route::Id(5),
            bus_id: bus::Id(6),
        })
    );
    assert_eq!(database.show_trip(trip::Id(1)), None);
}

#[test]
fn show_trip_finds_the_first_of_two() {
    let database = Database {
        trips: vec![
            Trip {
                id: trip::Id(2),
                route_id: route::Id(1),
                bus_id: bus::Id(1),
            },
            Trip {
                id: trip::Id(2),
                route_id: route::Id(9),
                bus_id: bus::Id(9),
            },
        ],
        ..Database::default()
    };
    assert_eq!(
        database.show_trip(trip::Id(2)).unwrap().route_id,
        route::Id(1)
    );
}
